use congal::search::{json_de_valor, licitacions_de_resultados, parse_results, SearchRow};
use congal::model::TipoContrato;

const SAMPLE: &str = r#"<html><body>
  <input type="hidden" id="resSearch" value="[{&quot;id&quot;:&quot;1&quot;,&quot;referencia&quot;:&quot;R1&quot;,&quot;asunto&quot;:&quot;Obra do hospital de Lugo&quot;,&quot;importe&quot;:&quot;1.000,00&quot;,&quot;estado&quot;:&quot;Formalizado&quot;,&quot;publicacion&quot;:&quot;01-01-2025&quot;,&quot;codOrganismo&quot;:&quot;10&quot;,&quot;organismo&quot;:&quot;SERGAS&quot;},{&quot;id&quot;:&quot;2&quot;,&quot;referencia&quot;:&quot;R2&quot;,&quot;asunto&quot;:&quot;Subministración de papel&quot;,&quot;importe&quot;:&quot;500,00&quot;,&quot;estado&quot;:&quot;Adxudicado&quot;,&quot;publicacion&quot;:&quot;02-02-2025&quot;,&quot;codOrganismo&quot;:&quot;11&quot;,&quot;organismo&quot;:&quot;Concello&quot;}]">
</body></html>"#;

fn filas(html: &str) -> Vec<SearchRow> {
    let Some(json) = parse_results(html) else {
        return Vec::new();
    };
    let v: Vec<serde_json::Value> = serde_json::from_str(&json).expect("json");
    let campo = |o: &serde_json::Value, k: &str| o.get(k).and_then(|x| x.as_str()).unwrap_or("").to_string();
    v.iter()
        .map(|o| SearchRow {
            id: campo(o, "id"),
            referencia: campo(o, "referencia"),
            asunto: campo(o, "asunto"),
            importe: campo(o, "importe"),
            estado: campo(o, "estado"),
            publicacion: campo(o, "publicacion"),
        })
        .collect()
}

#[test]
fn parsea_dous_rexistros_do_ressearch() {
    let rows = filas(SAMPLE);
    assert_eq!(rows.len(), 2);
    assert_eq!(rows[0].id, "1");
    assert_eq!(rows[0].asunto, "Obra do hospital de Lugo");
    assert_eq!(rows[1].asunto, "Subministración de papel");
}

#[test]
fn ressearch_baleiro_devolve_lista_baleira() {
    let html = r#"<input id="resSearch" value="">"#;
    assert!(filas(html).is_empty());
}

#[test]
fn deduplica_contratos_repetidos_polo_id() {
    let html = r#"<input id="resSearch" value="[{&quot;id&quot;:&quot;1&quot;,&quot;asunto&quot;:&quot;Lote A&quot;},{&quot;id&quot;:&quot;1&quot;,&quot;asunto&quot;:&quot;Lote B&quot;},{&quot;id&quot;:&quot;2&quot;,&quot;asunto&quot;:&quot;Outro&quot;}]">"#;
    let rows = filas(html);
    assert_eq!(rows.len(), 3);
    let lic = licitacions_de_resultados(&rows, &"48".to_string(), &"AGASP".to_string());
    assert_eq!(lic.len(), 2);
    assert_eq!(lic[0].asunto, "Lote A"); // consérvase a primeira aparición
    assert_eq!(lic[1].id, "2");
    assert!(lic.iter().all(|s| s.cod_organismo == "48" && s.organismo == "AGASP" && s.tipo == TipoContrato::Licitacion));
}

#[test]
fn ressearch_sen_elemento_ou_lista_baleira() {
    assert_eq!(parse_results("<p>nada</p>"), None);
    assert_eq!(json_de_valor(&Some(" [] ".to_string())), None);
    assert_eq!(json_de_valor(&Some(" [1] ".to_string())).as_deref(), Some("[1]"));
    assert_eq!(json_de_valor(&None), None);
}
