use congal::model::Resolucion;
use congal::scraper::datoscif::{valor_de_capturas, cargos_da_paxina, es_cargo_excluido, parse_empresa_info, seguinte_paxina_cargos, CargoRaw};
use congal::scraper::detail::{
    atopa_nif, es_nif, extract_nif_map, nif_de, parse_detail, parse_multiples_adx, parse_resolucions, parse_utes,
};
use congal::scraper::options::select_options;
use congal::scraper::{clean_text, decode_bytes};

const FICHA_CARU: &str = r#"<div class="ficha">
  <span itemprop="name">CARU SA</span>
  <span itemprop="streetAddress">Calle Cardenal   Cisneros, 12</span>
  <span itemprop="postalCode">39001</span>
  <span itemprop="addressLocality">Santander</span>
  <span itemprop="addressRegion"> Cantabria</span>
</div>"#;

const FICHA_INDITEX: &str = r#"<p>CIF: <span itemprop="taxID">A28601094</span></p>
<span itemprop="addressLocality">Arteixo</span>"#;

#[test]
fn parsea_enderezo_empresa() {
    let info = parse_empresa_info(FICHA_CARU);
    assert_eq!(info.municipio, "Santander");
    assert_eq!(info.provincia, "Cantabria"); // o espazo inicial límpase
    assert_eq!(info.cod_postal, "39001");
    assert!(info.domicilio.contains("Cardenal Cisneros"));
}

#[test]
fn parsea_cif_empresa() {
    let info = parse_empresa_info(FICHA_INDITEX);
    assert_eq!(info.cif, "A28601094");
}

#[test]
fn ficha_sen_cif_deixa_o_campo_baleiro() {
    let info = parse_empresa_info(FICHA_CARU);
    assert_eq!(info.cif, "");
    let info = parse_empresa_info(r#"<span ITEMPROP="taxID">B15903883</span>"#);
    assert_eq!(info.cif, "B15903883");
}

#[test]
fn exclue_auditores() {
    assert!(es_cargo_excluido("Auditor"));
    assert!(es_cargo_excluido("Auditor de Cuentas"));
    assert!(es_cargo_excluido("Auditor Suplente"));
    assert!(!es_cargo_excluido("Administrador Único"));
    assert!(!es_cargo_excluido("Apoderado"));
    assert!(!es_cargo_excluido("Socio Unico"));
}

#[test]
fn filas_de_cargo_filtradas_e_datas_iso() {
    let datos = vec![
        CargoRaw {
            cargo: "Administrador Único".into(),
            persona_url: "xan-perez".into(),
            persona_nombre: "XAN PEREZ".into(),
            desde: "01/02/2020".into(),
            hasta: "".into(),
        },
        CargoRaw { cargo: "Auditor".into(), persona_url: "audit-sl".into(), ..Default::default() },
        CargoRaw { cargo: "Apoderado".into(), persona_url: "   ".into(), ..Default::default() },
        CargoRaw {
            cargo: "Apoderado".into(),
            persona_url: "ana-gil".into(),
            persona_nombre: "ANA GIL".into(),
            desde: "descoñecida".into(),
            hasta: "2021-05-06".into(),
        },
    ];
    let r = cargos_da_paxina(&datos);
    assert_eq!(r.len(), 2);
    assert_eq!(r[0].persona_url, "xan-perez");
    assert_eq!(r[0].desde, "2020-02-01");
    assert!(r[0].activo);
    assert_eq!(r[1].desde, "descoñecida");
    assert_eq!(r[1].hasta, "2021-05-06");
    assert!(!r[1].activo);
}

#[test]
fn paxinas_de_cargos_ata_o_tope() {
    assert_eq!(seguinte_paxina_cargos(1, 3), Some(2));
    assert_eq!(seguinte_paxina_cargos(3, 3), None);
    assert_eq!(seguinte_paxina_cargos(50, 99), None);
    assert_eq!(seguinte_paxina_cargos(1, 0), None);
}

#[test]
fn decodifica_windows_1252() {
    assert_eq!(decode_bytes(b"Coru\xf1a \x80 \x93ok\x94"), "Coruña € \u{201C}ok\u{201D}");
    assert_eq!(decode_bytes(b"abc"), "abc");
}

#[test]
fn limpa_texto_html() {
    assert_eq!(clean_text("<b>Concello</b>   de&nbsp;<i>Vigo</i>\n"), "Concello de Vigo");
    assert_eq!(clean_text("  A  &amp; B "), "A & B");
    assert_eq!(clean_text("texto   simple"), "texto simple");
}

#[test]
fn reconece_tokens_nif() {
    assert!(es_nif("B36881415"));
    assert!(es_nif("x1234567l"));
    assert!(!es_nif("1234"));
    assert_eq!(atopa_nif("NIF: A15764723 (sede)").as_deref(), Some("A15764723"));
    assert_eq!(atopa_nif("sen nif"), None);
}

const PORTADA: &str = r#"<form>
<select name="o" id="organoL" class="x">
  <option value=''>Seleccione...</option>
  <option value='48'>AGASP - Academia Galega de Seguridade</option>
  <option value="12" selected> Concello &amp; Deputación </option>
</select>
<select id="outro"><option value="1">Un</option></select>
</form>"#;

#[test]
fn opcions_dun_despregable() {
    let o = select_options(PORTADA, "organoL");
    assert_eq!(o.len(), 2);
    assert_eq!(o[0], ("48".to_string(), "AGASP - Academia Galega de Seguridade".to_string()));
    assert_eq!(o[1], ("12".to_string(), "Concello & Deputación".to_string()));
    assert_eq!(select_options(PORTADA, "outro").len(), 1);
    assert!(select_options(PORTADA, "non.existe").is_empty());
}

const CELA_MULTIPLES: &str = r#"Múltiples adxudicatarios do procedemento
<input type="hidden" id="ADX_NOM_1_2_3" value="B70212634">
<input type="hidden" id="ADX_CIF_1_2_3" value="INGENIO MEDIA SL">
<input type="hidden" id="ADX_NOM_1_2_4" value="A15764723">
<input type="hidden" id="ADX_CIF_1_2_4" value=" IMAXE INTERMEDIA SA ">
<input type="hidden" id="ADX_NOM_1_2_5" value="SEN CIF SL">"#;

#[test]
fn multiples_adxudicatarios_por_sufixo() {
    let m = parse_multiples_adx(CELA_MULTIPLES);
    assert_eq!(
        m,
        vec![
            ("INGENIO MEDIA SL".to_string(), "B70212634".to_string()),
            ("IMAXE INTERMEDIA SA".to_string(), "A15764723".to_string()),
        ]
    );
    assert!(parse_multiples_adx("SOLTEC INGENIERIA SL").is_empty());
}

fn detalle(resolucion: &str, extra: &str) -> String {
    format!(
        r#"<dl>
<dt>Referencia</dt><dd> 2024-142 </dd>
<dt>Obxecto do contrato</dt><dd>Servizo de limpeza</dd>
<dt>Tipo de contrato</dt> <dd>Servizos</dd>
<dt>Referencia interna</dt><dd>outra</dd>
<dt>Orzamento base de licitación</dt><dd>1.000,00 €</dd>
<dt>Campo novo</dt><dd>valor novo</dd>
<dt>Campo novo</dt><dd>repetido</dd>
<dt></dt><dd>sen etiqueta</dd>
</dl>
<table class="oculta"><tr class="x filasLicitadores"><td>1</td><td>B36881415</td><td>SOLTEC INGENIERIA SL</td></tr></table>
<h3>Datos da resolución do procedemento</h3>
<table>
<tr><th>Lote</th><th>Participación</th><th>Estado</th><th>Adxudicatario</th><th>Importe</th></tr>
{resolucion}
</table>
{extra}"#
    )
}

#[test]
fn detalle_campos_e_resolucion_con_nif() {
    let html = detalle(
        "<tr><td>1</td><td>3</td><td>Adxudicado</td><td>SOLTEC INGENIERIA SL</td><td>3.502,22 €</td><td>01/02/2025</td></tr>\
         <tr><td></td><td></td><td></td><td></td></tr>",
        "",
    );
    let (d, res) = parse_detail("824418", &html);
    assert_eq!(d.contract_id, "824418");
    assert_eq!(d.enlace_resolucion, "https://www.contratosdegalicia.gal/licitacion?N=824418");
    assert_eq!(d.referencia, "2024-142");
    assert_eq!(d.obxecto, "Servizo de limpeza");
    assert_eq!(d.tipo_contrato, "Servizos");
    assert_eq!(d.orzamento_base, "1.000,00 €");
    assert_eq!(d.extra, vec![("Campo novo".to_string(), "valor novo".to_string())]);
    assert_eq!(res.len(), 1);
    assert_eq!(res[0].adxudicatario, "SOLTEC INGENIERIA SL");
    assert_eq!(res[0].importe_txt, "3.502,22 €");
    assert_eq!(res[0].data_difusion, "01/02/2025");
    assert_eq!(res[0].nif, "B36881415");
}

#[test]
fn resolucion_con_multiples_adxudicatarios() {
    let fila = format!(
        "<tr><td>1</td><td>5</td><td>Adxudicado</td><td>{}</td><td>9.000,00 €</td></tr>",
        CELA_MULTIPLES
    );
    let res = parse_resolucions(&detalle(&fila, ""));
    assert_eq!(res.len(), 2);
    assert!(!res.iter().any(|r| r.adxudicatario.contains("Múltiples")));
    assert_eq!(res[0].adxudicatario, "INGENIO MEDIA SL");
    assert_eq!(res[0].nif, "B70212634");
    assert_eq!(res[1].nif, "A15764723");
    assert!(res.iter().all(|r| r.importe_txt.is_empty() && r.estado_resolucion == "Adxudicado"));
}

#[test]
fn sen_titulo_de_resolucion_non_hai_resolucions() {
    assert!(parse_resolucions("<table><tr><td>1</td></tr></table>").is_empty());
}

#[test]
fn mapa_de_nif_da_formalizacion() {
    let html = "<table><tr class='filasLicitadores'><td>7</td><td>B15903883</td><td>AIN ACTIVE SL</td><td>x</td></tr></table>\
                <td>EMPRESA DOUS, S.L.<br/>A11111111</td>\
                <td>AIN ACTIVE SL<br/>B99999999</td>";
    let m = extract_nif_map(html);
    assert_eq!(nif_de(&m, &"ain active sl".to_string()).as_deref(), Some("B15903883"));
    assert_eq!(nif_de(&m, &"empresa dous sl".to_string()).as_deref(), Some("A11111111"));
    assert_eq!(nif_de(&m, &"outra".to_string()), None);
    assert_eq!(m.len(), 2);
}

const POPUP_UTE: &str = r#"<table>
<tr class="filasLicitadores"><td>1</td><td>U12345678</td><td><ul class='list-unstyled'><li>UTE AQUATEC - AIN ACTIVE</li>
<li><ul><li>A85788073 - AQUATEC PROYECTOS SA</li><li>b15903883 - AIN ACTIVE SL </li><li>sen separador</li></ul></li></ul></td></tr>
<tr class="filasLicitadores"><td>2</td><td>B00000000</td><td><ul><li>AQUATICA INGENIERIA CIVIL, SL</li></ul></td></tr>
</table>"#;

#[test]
fn extrae_membros_de_ute_adxudicataria() {
    let res = vec![Resolucion { adxudicatario: "UTE AQUATEC - AIN ACTIVE".into(), ..Default::default() }];
    let utes = parse_utes(POPUP_UTE, &res);
    assert_eq!(utes.len(), 1);
    let u = &utes[0];
    assert_eq!(u.nome, "UTE AQUATEC - AIN ACTIVE");
    assert_eq!(u.nif, "U12345678");
    assert_eq!(u.membros.len(), 2);
    assert_eq!(u.membros[0].cif, "A85788073");
    assert_eq!(u.membros[1].cif, "B15903883");
    assert_eq!(u.membros[1].nome, "AIN ACTIVE SL");
}

#[test]
fn ute_perdedora_non_se_extrae() {
    let res = vec![Resolucion { adxudicatario: "AQUATICA INGENIERIA CIVIL, SL".into(), ..Default::default() }];
    assert!(parse_utes(POPUP_UTE, &res).is_empty());
}

fn resolucion_soltec() -> String {
    detalle(
        "<tr><td>1</td><td>3</td><td>Adxudicado</td><td>SOLTEC INGENIERIA SL</td><td>3.502,22 €</td><td>01/02/2025</td></tr>",
        "",
    )
}

#[test]
fn extrae_adxudicatario_e_importe_da_resolucion() {
    let (d, res) = parse_detail("824418", &resolucion_soltec());
    assert_eq!(d.contract_id, "824418");
    assert!(d.enlace_resolucion.contains("N=824418"));
    assert!(!d.referencia.is_empty(), "referencia baleira");
    assert!(!res.is_empty(), "debe haber polo menos unha resolución");
    let soltec = res.iter().find(|r| r.adxudicatario.contains("SOLTEC")).expect("debe atoparse o adxudicatario SOLTEC");
    assert!(soltec.importe_txt.contains("3.502"), "importe={}", soltec.importe_txt);
    assert!(soltec.estado_resolucion.to_lowercase().contains("adxudic"));
}

#[test]
fn extrae_nif_do_adxudicatario() {
    let (_d, res) = parse_detail("824418", &resolucion_soltec());
    let soltec = res.iter().find(|r| r.adxudicatario.contains("SOLTEC")).expect("debe atoparse SOLTEC");
    assert_eq!(soltec.nif, "B36881415");
}

const CELA_TRES_ADX: &str = r#"Múltiples adxudicatarios do procedemento
<input type="hidden" id="ADX_NOM_1_2_3" value="B70212634">
<input type="hidden" id="ADX_CIF_1_2_3" value="INGENIO MEDIA SL">
<input type="hidden" id="ADX_NOM_1_2_4" value="A15764723">
<input type="hidden" id="ADX_CIF_1_2_4" value="IMAXE INTERMEDIA SA">
<input type="hidden" id="ADX_NOM_1_2_5" value="AVANTE SERVIZOS SL">
<input type="hidden" id="ADX_CIF_1_2_5" value="B70509971">"#;

#[test]
fn expande_multiples_adxudicatarios() {
    let fila = format!("<tr><td>1</td><td>5</td><td>Adxudicado</td><td>{}</td><td>9.000,00 €</td></tr>", CELA_TRES_ADX);
    let (_d, res) = parse_detail("827187", &detalle(&fila, ""));
    assert!(!res.iter().any(|r| r.adxudicatario.contains("Múltiples")), "o placeholder non debe quedar");
    assert_eq!(res.len(), 3, "tres adxudicatarios reais");
    let ingenio = res.iter().find(|r| r.adxudicatario.contains("INGENIO MEDIA")).expect("INGENIO MEDIA");
    assert_eq!(ingenio.nif, "B70212634");
    assert!(res.iter().any(|r| r.adxudicatario.contains("IMAXE INTERMEDIA") && r.nif == "A15764723"));
    assert!(res.iter().any(|r| r.adxudicatario.contains("AVANTE") && r.nif == "B70509971"));
    assert!(res.iter().all(|r| r.importe_txt.is_empty()));
}

#[test]
fn detalle_anulado_ten_campos_pero_sen_adxudicatario() {
    let html = detalle("<tr><td>1</td><td>0</td><td>Anulado</td><td></td><td></td></tr>", "");
    let (d, res) = parse_detail("824580", &html);
    assert_eq!(d.referencia, "2024-142");
    assert!(d.tipo_contrato.to_lowercase().contains("serviz"));
    assert!(!d.orzamento_base.is_empty());
    assert!(res.iter().all(|r| !r.adxudicatario.contains("S.L.")), "non debería haber adxudicatario real nun contrato anulado");
}

fn despregable(id: &str, n: usize, primeira: &str) -> String {
    let mut s = format!("<select id=\"{id}\" name=\"{id}\">{primeira}");
    for i in 0..n {
        s.push_str(&format!("<option value=\"{}\">Opción {}</option>", 1000 + i, i));
    }
    s.push_str("</select>");
    s
}

#[test]
fn parsea_opcions_de_filtro_da_portada() {
    let html = format!(
        "<form>{}{}{}{}</form>",
        despregable("organoL", 300, "<option value=\"48\">AGASP - Academia Galega de Seguridade Pública</option>"),
        despregable("tcLMultiSelect", 7, ""),
        despregable("scLMultiSelect", 4, ""),
        despregable("materiaMultiSelect", 45, ""),
    );
    let organos = select_options(&html, "organoL");
    assert!(organos.len() > 300, "organos={}", organos.len());
    assert!(organos.iter().any(|(c, l)| c == "48" && l.contains("AGASP")));
    assert_eq!(select_options(&html, "tcLMultiSelect").len(), 7);
    assert_eq!(select_options(&html, "scLMultiSelect").len(), 4);
    assert!(select_options(&html, "materiaMultiSelect").len() >= 40);
}

#[test]
fn valor_limpo_das_capturas_de_itemprop() {
    let c = vec![
        vec![Some("itemprop=\"streetAddress\">x</span>".to_string()), Some(" Rúa  <b>Nova</b>,&amp; 3 ".to_string())],
        vec![Some("outra".to_string()), Some("segunda".to_string())],
    ];
    assert_eq!(valor_de_capturas(&c), "Rúa Nova,& 3");
    assert_eq!(valor_de_capturas(&vec![]), "");
    assert_eq!(valor_de_capturas(&vec![vec![Some("só o total".to_string())]]), "");
}

#[test]
fn sen_adxudicatario_non_hai_utes() {
    let res = vec![Resolucion { adxudicatario: "  ...  ".into(), ..Default::default() }];
    assert!(parse_utes(POPUP_UTE, &res).is_empty());
    assert!(parse_utes(POPUP_UTE, &[]).is_empty());
}

#[test]
fn campos_extra_ordenados_pola_etiqueta() {
    let html = detalle("", "<dl><dt>Prazo</dt><dd>3 meses</dd><dt>Lugar</dt><dd>Lugo</dd><dt>Prazo</dt><dd>outro</dd></dl>");
    let (d, _) = parse_detail("1", &html);
    let etiquetas: Vec<&str> = d.extra.iter().map(|(k, _)| k.as_str()).collect();
    assert_eq!(etiquetas, vec!["Campo novo", "Lugar", "Prazo"]);
    assert_eq!(d.extra[2].1, "3 meses");
}
