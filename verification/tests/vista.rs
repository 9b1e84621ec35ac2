use congal::consulta::{clausula_orde, DbStats};
use congal::model::{SortColumn, TipoContrato};
use congal::sync::SyncResult;
use congal::vista::{
    agrupa_utes_contrato, alterna_orde, anos_despregable, cabeceiras, chunco, con_buscador, etiqueta_cabeceira,
    etiqueta_de_codigo, filas_despregable, filtra_opcions, filtra_valores, info_bd, progreso, resumo_importacion,
    texto_seleccion,
};

#[test]
fn premer_na_cabeceira_alterna_a_orde() {
    assert_eq!(alterna_orde(SortColumn::Data, false, SortColumn::Data), (SortColumn::Data, true));
    assert_eq!(alterna_orde(SortColumn::Data, true, SortColumn::Obxecto), (SortColumn::Obxecto, true));
    assert_eq!(alterna_orde(SortColumn::Obxecto, true, SortColumn::Importe), (SortColumn::Importe, false));
    // Dúas veces na mesma columna: volve á orde de partida.
    let (c, a) = alterna_orde(SortColumn::Estado, true, SortColumn::Estado);
    assert_eq!(alterna_orde(c, a, SortColumn::Estado), (SortColumn::Estado, true));
}

#[test]
fn cabeceiras_segundo_a_subpestana() {
    let l = cabeceiras(TipoContrato::Licitacion);
    assert_eq!(l.len(), 8);
    assert_eq!(l[4], ("Estado", Some(SortColumn::Estado)));
    assert_eq!(l[7], ("Imp. resolución", Some(SortColumn::ImporteResolucion)));
    let m = cabeceiras(TipoContrato::Menor);
    assert_eq!(m[4], ("NIF", None));
    assert_eq!(m[7], ("Duración", None));
    assert_eq!(etiqueta_cabeceira("Data", true, false), "Data ▼");
    assert_eq!(etiqueta_cabeceira("Data", true, true), "Data ▲");
    assert_eq!(etiqueta_cabeceira("Data", false, true), "Data");
}

#[test]
fn chuncos_e_progreso() {
    assert_eq!(chunco(0), (0, 0));
    assert_eq!(chunco(8001), (1, 1));
    assert_eq!(progreso(3, 10), Some((3, 10)));
    assert_eq!(progreso(3, 0), None);
}

#[test]
fn textos_de_estado() {
    let r = SyncResult { licitacions: 12, novos: 3, actualizados: 2, saltados: 7, detalles_descargados: 5, menores: 40, erros: 0 };
    assert_eq!(
        resumo_importacion(&r),
        "Importación rematada · 12 licitacións (3 novas · 2 actualizadas · 7 saltadas · 5 detalles) · 40 contratos menores · 0 erros"
    );
    let s = DbStats { total: 120, con_detalle: -3, ultima_sync: Some("2025-02-01 10:00:00".into()) };
    assert_eq!(info_bd(&s), "BD: 120 contratos · -3 con detalle · última importación: 2025-02-01 10:00:00");
    assert_eq!(info_bd(&DbStats::default()), "BD: 0 contratos · 0 con detalle");
}

#[test]
fn orde_do_listado_en_sql() {
    assert_eq!(
        clausula_orde(SortColumn::Data, false),
        " ORDER BY c.data_publicacion DESC NULLS LAST, CAST(c.id AS INTEGER) DESC"
    );
    assert_eq!(
        clausula_orde(SortColumn::Obxecto, true),
        " ORDER BY c.asunto COLLATE NOCASE ASC NULLS LAST, CAST(c.id AS INTEGER) DESC"
    );
}

#[test]
fn utes_da_ficha_do_contrato() {
    let rows = vec![
        ("UTE X".to_string(), "A".to_string(), "A1".to_string()),
        ("UTE Y".to_string(), "C".to_string(), "C3".to_string()),
        ("UTE X".to_string(), "B".to_string(), "B2".to_string()),
    ];
    let u = agrupa_utes_contrato(&rows);
    assert_eq!(u.len(), 2);
    assert_eq!(u[0].ute_nome, "UTE X");
    assert_eq!(u[0].membros.len(), 2);
    assert_eq!(u[0].membros[1].cif, "B2");
    assert_eq!(u[1].membros[0].nome, "C");
}

#[test]
fn despregables_con_buscador() {
    let vs = vec!["Concello da Coruña".to_string(), "Deputación de Lugo".to_string(), "CORUÑA SAD".to_string()];
    assert_eq!(filtra_valores(&vs, "coruña"), vec!["Concello da Coruña".to_string(), "CORUÑA SAD".to_string()]);
    assert_eq!(filtra_valores(&vs, "").len(), 3);
    assert!(filtra_valores(&vs, "vigo").is_empty());
    let os = vec![("48".to_string(), "AGASP".to_string()), ("12".to_string(), "Xunta".to_string())];
    assert_eq!(filtra_opcions(&os, "xun"), vec![("12".to_string(), "Xunta".to_string())]);
    assert_eq!(etiqueta_de_codigo(&os, "12", true), "Xunta");
    assert_eq!(etiqueta_de_codigo(&os, "", true), "(todos)");
    assert_eq!(etiqueta_de_codigo(&os, "99", false), "(escolle…)");
    assert_eq!(texto_seleccion(""), "(todos)");
    assert_eq!(texto_seleccion("2024"), "2024");
    assert!(con_buscador(13));
    assert!(!con_buscador(12));
    assert_eq!(filas_despregable(3, true), 4);
    assert_eq!(filas_despregable(30, true), 10);
    assert_eq!(filas_despregable(9, true), 10);
    assert_eq!(anos_despregable(2010), vec![2010, 2009, 2008]);
    assert!(anos_despregable(2000).is_empty());
}
