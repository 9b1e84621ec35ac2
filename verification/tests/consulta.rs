use congal::consulta::{anos_de_datas, es_participante_unico, extract_year, filtrados_cte, local_where, opcions_locais};
use congal::model::LocalFilters;
use congal::sync::{clasifica, conta_detalle, conta_detalles, planifica, Accion, SyncResult};

#[test]
fn ano_dunha_data_en_calquera_formato() {
    assert_eq!(extract_year("01/02/2025").as_deref(), Some("2025"));
    assert_eq!(extract_year("2019-12-31 10:00").as_deref(), Some("2019"));
    assert_eq!(extract_year("3020-01-01"), None);
    assert_eq!(extract_year("sen data"), None);
}

#[test]
fn anos_distintos_descendentes() {
    let datas = vec!["01/02/2024".to_string(), "2025-03-01".to_string(), "15-03-2024".to_string(), "x".to_string()];
    assert_eq!(anos_de_datas(&datas), vec!["2025".to_string(), "2024".to_string()]);
    let o = opcions_locais(vec!["A".to_string()], vec!["Org".to_string()], &datas);
    assert_eq!(o.anos, vec!["2025".to_string(), "2024".to_string()]);
    assert_eq!(o.adxudicatarios, vec!["A".to_string()]);
    assert_eq!(o.organismos, vec!["Org".to_string()]);
}

#[test]
fn participante_unico_so_con_todos_os_lotes_a_un() {
    assert!(es_participante_unico(Some(1), Some(1)));
    assert!(!es_participante_unico(Some(3), Some(1)));
    assert!(!es_participante_unico(Some(1), Some(0)));
    assert!(!es_participante_unico(None, None));
}

#[test]
fn clausula_where_dos_filtros() {
    let (sql, args) = local_where(&LocalFilters::default());
    assert_eq!(sql, "");
    assert!(args.is_empty());
    let f = LocalFilters {
        texto: "Coruña".into(),
        year: " 2024 ".into(),
        adxudicatario: "   ".into(),
        ..Default::default()
    };
    let (sql, args) = local_where(&f);
    assert_eq!(
        sql,
        " AND (nrm(c.asunto) LIKE ? OR nrm(c.referencia) LIKE ?) AND c.data_publicacion LIKE ?"
    );
    assert_eq!(args, vec!["%coruna%".to_string(), "%coruna%".to_string(), "%2024%".to_string()]);
    assert_eq!(sql.matches('?').count(), args.len());
    assert!(filtrados_cte(&sql).starts_with("filtrados AS (SELECT c.id FROM contracts c"));
    assert!(filtrados_cte("").ends_with("WHERE 1=1)"));
}

#[test]
fn plan_de_importacion() {
    let ids = vec!["1".to_string(), "2".to_string(), "3".to_string()];
    let previos = vec![None, Some("Formalizado".to_string()), Some("Adxudicado".to_string())];
    let (det, r) = planifica(&ids, &previos);
    assert_eq!(det, vec!["1".to_string(), "3".to_string()]);
    assert_eq!((r.licitacions, r.novos, r.actualizados, r.saltados), (3, 1, 1, 1));
    assert_eq!(clasifica(&Some("Deserto".into())), Accion::Saltar);
    let mut s = SyncResult::default();
    conta_detalle(&mut s, true);
    conta_detalle(&mut s, false);
    conta_detalle(&mut s, true);
    assert_eq!((s.detalles_descargados, s.erros), (2, 1));
}

#[test]
fn importacion_completa_conta_cada_detalle_unha_vez() {
    let ids = vec!["1".to_string(), "2".to_string(), "3".to_string(), "4".to_string()];
    let previos = vec![None, Some("Resolto".to_string()), Some("En prazo".to_string()), None];
    let (det, mut r) = planifica(&ids, &previos);
    assert_eq!(det.len(), 3);
    conta_detalles(&mut r, &vec![true, false, true]);
    assert_eq!((r.detalles_descargados, r.erros), (2, 1));
    assert_eq!(r.detalles_descargados + r.erros, r.novos + r.actualizados);
    assert_eq!((r.licitacions, r.saltados), (4, 1));
}
