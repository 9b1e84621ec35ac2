use congal::relacions::{agrupa_filas, componentes, tramas, UteMembroFila};

fn fila(cid: &str, ukey: &str, ekey: &str, nome: &str) -> UteMembroFila {
    UteMembroFila {
        contract_id: cid.into(),
        ute_key: ukey.into(),
        ute_nome: format!("UTE {ukey}"),
        ekey: ekey.into(),
        membro_nome: nome.into(),
        asunto: format!("obra {cid}"),
        data_iso: "2025-02-01".into(),
    }
}

#[test]
fn agrupa_as_filas_de_cada_ute() {
    let f = vec![
        fila("1", "a b", "A1", "EMPRESA A"),
        fila("1", "a b", "B2", "EMPRESA B"),
        fila("2", "a b", "A1", "EMPRESA A"),
    ];
    let g = agrupa_filas(&f);
    assert_eq!(g.len(), 2);
    assert_eq!(g[0].membros.len(), 2);
    assert_eq!(g[0].fila, 0);
    assert_eq!(g[1].fila, 2);
    assert_eq!(g[1].contract_id, "2");
    assert!(agrupa_filas(&vec![]).is_empty());
}

#[test]
fn ute_relaciona_os_seus_membros_nunha_trama() {
    let g = agrupa_filas(&vec![fila("1", "ute a b", "A11111111", "EMPRESA A"), fila("1", "ute a b", "B22222222", "EMPRESA B")]);
    let t = tramas(&g);
    assert_eq!(t.len(), 1);
    assert_eq!(t[0].empresas.len(), 2);
    assert_eq!(t[0].utes, vec![0]);
    assert_eq!(t[0].contratos, vec![0]);
    assert_eq!(t[0].empresas[0].empresa_nome, "EMPRESA A");
    assert_eq!(t[0].empresas[0].num_contratos, 1);
}

#[test]
fn tramas_unen_utes_con_empresas_comuns() {
    let f = vec![
        // UTE 1: A + B (contrato 1), UTE 2: B + C (contrato 2) → unha trama A-B-C.
        fila("1", "u1", "A", "alfa"),
        fila("1", "u1", "B", "Beta"),
        fila("2", "u2", "B", "beta bis"),
        fila("2", "u2", "C", "gamma"),
        // UTE 3: D + E (contrato 3) → outra trama.
        fila("3", "u3", "D", "delta"),
        fila("3", "u3", "E", "epsilon"),
        // UTE 4 cun só membro distinto (F, F): non forma trama.
        fila("4", "u4", "F", "zeta"),
        fila("4", "u4", "F", "zeta"),
        // UTE 5: A + C no contrato 2 outra vez (mesmo contrato noutra UTE).
        fila("2", "u5", "A", "alfa"),
        fila("2", "u5", "C", "gamma"),
    ];
    let g = agrupa_filas(&f);
    assert_eq!(g.len(), 5);
    let t = tramas(&g);
    assert_eq!(t.len(), 2);
    // A máis grande primeiro.
    let nomes: Vec<&str> = t[0].empresas.iter().map(|e| e.empresa_nome.as_str()).collect();
    assert_eq!(nomes, vec!["alfa", "Beta", "gamma"]);
    let b = &t[0].empresas[1];
    assert_eq!(b.cif, "B");
    assert_eq!(b.num_contratos, 2);
    assert_eq!(t[0].utes, vec![0, 1, 4]);
    // O contrato 2 cóntase unha soa vez (primeira UTE do contrato).
    assert_eq!(t[0].contratos, vec![0, 1]);
    assert_eq!(t[1].empresas.len(), 2);
    assert_eq!(t[1].utes, vec![2]);
}

#[test]
fn sen_utes_non_hai_tramas() {
    assert!(tramas(&vec![]).is_empty());
}

#[test]
fn componentes_conexas_dos_grupos() {
    let c = componentes(5, &vec![vec![0, 1], vec![3, 4], vec![1, 2]]);
    assert_eq!(c[0], c[1]);
    assert_eq!(c[1], c[2]);
    assert_eq!(c[3], c[4]);
    assert_ne!(c[0], c[3]);
}

fn fila_data(cid: &str, ukey: &str, ekey: &str, data: &str) -> UteMembroFila {
    UteMembroFila { data_iso: data.into(), ..fila(cid, ukey, ekey, ekey) }
}

#[test]
fn contratos_da_trama_van_do_mais_recente_ao_mais_antigo() {
    let f = vec![
        fila_data("1", "u", "A", "2024-03-01"),
        fila_data("1", "u", "B", "2024-03-01"),
        fila_data("2", "u", "A", "2025-06-30"),
        fila_data("2", "u", "B", "2025-06-30"),
        fila_data("3", "u", "A", "2024-03-01"),
        fila_data("3", "u", "B", "2024-03-01"),
        fila_data("4", "u", "A", ""),
        fila_data("4", "u", "B", ""),
    ];
    let g = agrupa_filas(&f);
    let t = tramas(&g);
    assert_eq!(t.len(), 1);
    // 2025 primeiro; os dous de 2024 na súa orde; sen data ao final.
    assert_eq!(t[0].contratos, vec![1, 0, 2, 3]);
}
