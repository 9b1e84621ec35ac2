use congal::datas::{format_data_gl, parse_data, texto_gl, texto_iso};
use congal::importe::{format_importe_cents, normalize_importe};
use congal::model::{company_key, is_estado_terminal, normalize_nif, normalize_search, SortColumn, TipoContrato};

fn importe(s: &str) -> Option<f64> {
    normalize_importe(s).and_then(|t| t.parse::<f64>().ok())
}

#[test]
fn importe_galego_a_float() {
    assert_eq!(importe("1.000.000,00"), Some(1_000_000.0));
    assert_eq!(importe("3.502,22 €"), Some(3502.22));
    assert_eq!(importe("500,00"), Some(500.0));
    assert_eq!(importe("_"), None);
    assert_eq!(importe(""), None);
}

#[test]
fn formatea_importe_galego() {
    assert_eq!(format_importe_cents(false, 100_000_000), "1.000.000,00 €");
    assert_eq!(format_importe_cents(false, 350_222), "3.502,22 €");
    assert_eq!(format_importe_cents(false, 50_000), "500,00 €");
    assert_eq!(format_importe_cents(false, 0), "0,00 €");
    assert_eq!(format_importe_cents(false, 350_050), "3.500,50 €");
    // Ida e volta: o que se formatea pódese volver ler.
    assert_eq!(importe(&format_importe_cents(false, 123_456)), Some(1234.56));
}

#[test]
fn importe_negativo_e_texto_normalizado() {
    assert_eq!(format_importe_cents(true, 150), "-1,50 €");
    assert_eq!(normalize_importe("1.234,56 €").as_deref(), Some("1234.56"));
    assert_eq!(normalize_importe("-12,5").as_deref(), Some("-12.5"));
    assert_eq!(normalize_importe("sen importe"), None);
}

#[test]
fn parsea_datas_a_iso() {
    assert_eq!(parse_data("01-02-2025").as_deref(), Some("2025-02-01"));
    assert_eq!(parse_data("1/2/2025").as_deref(), Some("2025-02-01"));
    assert_eq!(parse_data("2025-02-01").as_deref(), Some("2025-02-01"));
    // Ignórase a hora final.
    assert_eq!(parse_data("01-02-2025 13:45").as_deref(), Some("2025-02-01"));
    assert_eq!(parse_data(""), None);
    assert_eq!(parse_data("sen data"), None);
}

#[test]
fn formatea_data_para_presentacion() {
    assert_eq!(format_data_gl("2025-02-01"), "01/02/2025");
    // Entrada non ISO: devólvese tal cal.
    assert_eq!(format_data_gl("sen data"), "sen data");
    // Ida e volta.
    assert_eq!(parse_data(&format_data_gl("2024-12-31")).as_deref(), Some("2024-12-31"));
}

#[test]
fn datas_con_barras_espazos_e_anos_curtos() {
    assert_eq!(parse_data("  2025/03/04 extra").as_deref(), Some("2025-03-04"));
    assert_eq!(parse_data("31-02-2025"), None);
    assert_eq!(format_data_gl(" 2025-03-04 "), "04/03/2025");
    assert_eq!(texto_iso(987, 1, 2), "0987-01-02");
    assert_eq!(texto_iso(-5, 12, 31), "-0005-12-31");
    assert_eq!(texto_iso(12345, 6, 7), "+12345-06-07");
    assert_eq!(texto_gl(2024, 1, 9), "09/01/2024");
}

#[test]
fn normalizacion_busca() {
    assert_eq!(normalize_search("Concello da Coruña"), "concello da coruna");
    assert_eq!(normalize_search("ÓRGANO"), "organo");
    assert_eq!(normalize_search("Educación"), "educacion");
    // Insensible a maiúsculas e acentos: a consulta normalizada atópase no texto.
    assert!(normalize_search("Vehículos eléctricos").contains(&normalize_search("ELÉCTRIC")));
    assert!(normalize_search("Adxudicación").contains(&normalize_search("dicacion")));
}

#[test]
fn estados_terminais() {
    assert!(is_estado_terminal("Formalizado"));
    assert!(is_estado_terminal("Anulado/Desestimado"));
    assert!(is_estado_terminal("Deserto"));
    assert!(!is_estado_terminal("Pendente de adxudicar"));
    assert!(!is_estado_terminal("Adxudicado"));
    assert!(!is_estado_terminal("En prazo de presentación de ofertas"));
}

#[test]
fn estado_resolto_e_terminal() {
    assert!(is_estado_terminal("RESOLTO"));
    assert!(!is_estado_terminal(""));
}

#[test]
fn clave_empresa_quita_puntos_e_acentos() {
    assert_eq!(company_key("Construccións S.L."), "construccions sl");
    assert_eq!(company_key("Obras, Pinturas y Más S.A."), "obras pinturas y mas sa");
    // O ñ dóbrase a n, en ambos lados da comparación.
    assert_eq!(company_key("CORUÑA SAD"), company_key("CORUNA SAD"));
}

#[test]
fn clave_empresa_separa_guions_e_colapsa_espazos() {
    assert_eq!(company_key("  UTE A - B  "), "ute a b");
    assert_eq!(company_key("Rial & Fillos"), "rial fillos");
    assert_eq!(company_key(""), "");
}

#[test]
fn nif_normalizado() {
    assert_eq!(normalize_nif(" b-36.881.415 "), "B36881415");
    assert_eq!(normalize_nif("x1234567l"), "X1234567L");
    assert_eq!(normalize_nif("--"), "");
}

#[test]
fn tipo_contrato_ida_e_volta() {
    assert_eq!(TipoContrato::from_db(TipoContrato::Menor.as_str()), TipoContrato::Menor);
    assert_eq!(TipoContrato::from_db(TipoContrato::Licitacion.as_str()), TipoContrato::Licitacion);
    assert_eq!(TipoContrato::from_db("outro"), TipoContrato::Licitacion);
    assert_eq!(TipoContrato::Menor.etiqueta(), "Contratos menores");
    assert_eq!(TipoContrato::Licitacion.etiqueta(), "Licitacións");
}

#[test]
fn columnas_de_orde() {
    assert!(!SortColumn::Data.default_asc());
    assert!(SortColumn::Adxudicatario.default_asc());
    assert_eq!(SortColumn::Data.order_sql(), "c.data_publicacion");
    assert_eq!(SortColumn::Id.order_sql(), "CAST(c.id AS INTEGER)");
}

#[test]
fn normalizacions_ascii_son_idempotentes() {
    let s = "Servizo de LIMPEZA, S.L. (Lote 2)";
    let n = normalize_search(s);
    assert_eq!(n, "servizo de limpeza, s.l. (lote 2)");
    assert_eq!(normalize_search(&n), n);
    let k = company_key(s);
    assert_eq!(k, "servizo de limpeza sl lote 2");
    assert_eq!(company_key(&k), k);
    assert_eq!(company_key(&normalize_search(s)), k);
    let nif = normalize_nif("b-36.881.415");
    assert_eq!(nif, "B36881415");
    assert_eq!(normalize_nif(&nif), nif);
}

#[test]
fn normalizacions_latin1_son_idempotentes() {
    let s = "ÁRBORE Ñandú, Çedilla & Cía. «Ourense» ×2";
    let n = normalize_search(s);
    assert_eq!(n, "arbore nandu, cedilla & cia. «ourense» ×2");
    assert_eq!(normalize_search(&n), n);
    let k = company_key(s);
    assert_eq!(k, "arbore nandu cedilla cia ourense 2");
    assert_eq!(company_key(&k), k);
    assert_eq!(company_key(&normalize_search(s)), k);
}

#[test]
fn data_ida_e_volta() {
    assert_eq!(parse_data(&format_data_gl("2024-12-31")).as_deref(), Some("2024-12-31"));
    assert_eq!(parse_data(&format_data_gl("0800-01-09")).as_deref(), Some("0800-01-09"));
    let iso = parse_data("29/02/2024").unwrap();
    assert_eq!(iso, "2024-02-29");
    assert_eq!(format_data_gl(&iso), "29/02/2024");
    assert_eq!(parse_data("30/02/2024"), None);
}
