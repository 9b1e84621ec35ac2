use congal::organismo::{limpa_campos_menor, marca_novos, parse_ano, query_string, rango_menores, seguinte_paxina, texto_dia, ventas, CamposMenor, RangoMenores};

#[test]
fn ano_valido() {
    assert_eq!(parse_ano("2024"), Some(2024));
    assert_eq!(parse_ano(" 2008 "), Some(2008));
    assert_eq!(parse_ano(""), None);
    assert_eq!(parse_ano("abc"), None);
}

#[test]
fn ano_fora_de_rango() {
    assert_eq!(parse_ano("1999"), None);
    assert_eq!(parse_ano("2101"), None);
    assert_eq!(parse_ano("+2050"), Some(2050));
    assert_eq!(parse_ano("99999999999"), None);
}

#[test]
fn paxinacion_da_api() {
    assert_eq!(seguinte_paxina(0, 100, 250), (100, true));
    assert_eq!(seguinte_paxina(200, 50, 250), (250, false));
    assert_eq!(seguinte_paxina(100, 0, 250), (100, false));
}

#[test]
fn ventas_de_oitenta_dias() {
    let v = ventas(1, 200);
    assert_eq!(v, vec![(1, 80), (81, 160), (161, 200)]);
    assert_eq!(ventas(10, 10), vec![(10, 10)]);
    assert!(ventas(11, 10).is_empty());
    assert_eq!(ventas(1, 160), vec![(1, 80), (81, 160)]);
}

#[test]
fn rango_dos_menores_acoutado_a_hoxe() {
    let ini = match rango_menores(2024, i32::MAX) {
        RangoMenores::Dias(a, b) => {
            assert_eq!(b - a, 365); // 2024 é bisesto
            a
        }
        outro => panic!("{outro:?}"),
    };
    assert_eq!(texto_dia(ini).as_deref(), Some("2024-01-01"));
    assert_eq!(texto_dia(ini + 59).as_deref(), Some("2024-02-29"));
    assert_eq!(rango_menores(2024, ini + 9), RangoMenores::Dias(ini, ini + 9));
    assert_eq!(rango_menores(2024, ini - 1), RangoMenores::Baleiro);
    assert_eq!(rango_menores(i32::MAX, 0), RangoMenores::Invalido);
}

#[test]
fn ids_novos_sen_repetir() {
    let mut vistos = vec![5_i64];
    let r = marca_novos(&mut vistos, &vec![1, 5, 1, 2]);
    assert_eq!(r, vec![true, false, false, true]);
    assert_eq!(vistos, vec![5, 1, 2]);
}

#[test]
fn cadea_de_consulta() {
    let ps = vec![
        ("idioma".to_string(), "gl".to_string()),
        ("start".to_string(), "0".to_string()),
        ("datestart".to_string(), "2024-01-01".to_string()),
    ];
    assert_eq!(query_string(&ps), "idioma=gl&start=0&datestart=2024-01-01");
    assert_eq!(query_string(&vec![]), "");
}

#[test]
fn parsea_contratos_menores_e_recorta_espazos() {
    let c = CamposMenor {
        publicado: " 2024-05-02 ".into(),
        objeto: "  Subministración de material  ".into(),
        nif: "B15903883   ".into(),
        adjudicatario: "   AIN ACTIVE SL".into(),
        duracion: " 3 meses\t".into(),
    };
    let r = limpa_campos_menor(&c);
    assert_eq!(r.nif, r.nif.trim());
    assert_eq!(r.adjudicatario, r.adjudicatario.trim());
    assert!(!r.nif.contains(' ') || r.nif.chars().all(|c| c.is_ascii_alphanumeric()));
    assert!(!r.adjudicatario.is_empty());
    assert!(!r.duracion.is_empty());
    assert_eq!((r.publicado.as_str(), r.objeto.as_str(), r.nif.as_str()), ("2024-05-02", "Subministración de material", "B15903883"));
    assert_eq!((r.adjudicatario.as_str(), r.duracion.as_str()), ("AIN ACTIVE SL", "3 meses"));
}

#[test]
fn numero_de_dia_do_calendario_gregoriano() {
    assert_eq!(rango_menores(2024, i32::MAX), RangoMenores::Dias(738886, 739251));
    assert_eq!(rango_menores(1, i32::MAX), RangoMenores::Dias(1, 365));
    assert_eq!(rango_menores(0, i32::MAX), RangoMenores::Dias(-365, 0));
    assert_eq!(rango_menores(262142, i32::MAX), RangoMenores::Dias(95745035, 95745399));
    assert_eq!(rango_menores(262143, i32::MAX), RangoMenores::Invalido);
    assert_eq!(texto_dia(719163).as_deref(), Some("1970-01-01"));
    assert_eq!(texto_dia(i32::MAX), None);
}
