use congal::enrich::{
    candidatos_cif, cif_coincide, conta_cargos, conta_desenlace, desenlace, engade_suxestions, es_empresa, urls_empresas,
    Desenlace, EnrichResult,
};
use congal::model::{Suggestion, FilterOptions};
use congal::sync::SyncResult;
use congal::worker::{evento, remata, Command, Event, Resposta};

fn sug(url: &str, tipo: i64) -> Suggestion {
    Suggestion { url: url.into(), nombre: url.to_uppercase(), tipo_entidad: tipo, uri: String::new() }
}

#[test]
fn suxestions_sen_urls_repetidas() {
    let mut s = vec![sug("a", 1)];
    engade_suxestions(&mut s, vec![sug("b", 1), sug("a", 2), sug("b", 2), sug("c", 3)]);
    let urls: Vec<&str> = s.iter().map(|x| x.url.as_str()).collect();
    assert_eq!(urls, vec!["a", "b", "c"]);
    assert_eq!(s[1].tipo_entidad, 1);
}

#[test]
fn candidatos_a_validar_por_cif() {
    let mut s: Vec<Suggestion> = (0..12).map(|i| sug(&format!("e{i}"), 1)).collect();
    s.push(sug("persoa", 2));
    let urls = urls_empresas(&s);
    assert_eq!(urls.len(), 12);
    assert!(es_empresa(&s, &"e3".to_string()));
    assert!(!es_empresa(&s, &"persoa".to_string()));
    let mut todas = vec!["persoa".to_string()];
    todas.extend(urls.iter().cloned());
    let c = candidatos_cif(&s, &todas);
    assert_eq!(c.len(), 8);
    assert_eq!(c[0], "e0");
    assert_eq!(c[7], "e7");
    assert!(cif_coincide("a-28601094", "A28601094"));
    assert!(!cif_coincide("", ""));
    assert!(!cif_coincide("B1", "B2"));
}

#[test]
fn contadores_do_enriquecemento() {
    let mut r = EnrichResult::default();
    conta_desenlace(&mut r, desenlace(Desenlace::Vinculado, 0, 1));
    conta_desenlace(&mut r, desenlace(Desenlace::SenMatch, 0, 0));
    conta_desenlace(&mut r, desenlace(Desenlace::SenMatch, 2, 3));
    conta_desenlace(&mut r, desenlace(Desenlace::Revisar, 2, 3));
    assert_eq!((r.procesados, r.vinculados, r.sen_match, r.a_revisar), (4, 1, 1, 1));
    conta_cargos(&mut r, Some(7));
    conta_cargos(&mut r, None);
    assert_eq!((r.cargos, r.empresas_con_cargos, r.erros), (7, 1, 1));
    assert_eq!(desenlace(Desenlace::SenMatch, 1, 2), Desenlace::Saltado);
}

#[test]
fn eventos_do_fio_traballador() {
    assert!(remata(&Command::Shutdown));
    assert!(!remata(&Command::LoadOptions));
    match evento(Resposta::Import(Err("sen rede".into()))) {
        Event::Error(m) => assert_eq!(m, "Erro na importación: sen rede"),
        _ => panic!("esperábase un erro"),
    }
    match evento(Resposta::SearchDatoscif { adx_nome: "X".into(), termo: "inditex".into(), res: Err("502".into()) }) {
        Event::Error(m) => assert_eq!(m, "Erro buscando «inditex»: 502"),
        _ => panic!("esperábase un erro"),
    }
    match evento(Resposta::Export { path: "/tmp/a.ods".into(), res: Ok(3) }) {
        Event::Exported(p, n) => assert_eq!((p.as_str(), n), ("/tmp/a.ods", 3)),
        _ => panic!("esperábase Exported"),
    }
    assert!(matches!(evento(Resposta::Import(Ok(SyncResult::default()))), Event::SyncDone(_)));
    assert!(matches!(evento(Resposta::Options(Ok(FilterOptions::default()))), Event::Options(_)));
}
