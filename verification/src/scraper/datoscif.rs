//! Datos de datoscif.es: ficha dunha empresa (microdata schema.org) e filtrado
//! dos cargos.

use vstd::prelude::*;
use crate::model::{EmpresaInfo, CargoRow};
use crate::text::{lowercase_str, chars_of, is_infix, contains_chars, str_lowercase, trim, trim_str};
use crate::datas::{parse_data, parse_data_spec};
use crate::scraper::{capturas, capturas_spec, caps_view, grupo, grupo_spec, clean_text, clean_text_spec};

verus! {

/// O cargo é dos que non interesan para as relacións (auditores: non implican
/// control nin propiedade da empresa).
pub open spec fn cargo_excluido(cargo: Seq<char>) -> bool {
    is_infix(str_lowercase(cargo), "auditor"@)
}

/// Lei: un cargo exclúese exactamente cando o seu texto en minúsculas contén
/// «auditor» (auditor, auditores, auditora…).
pub proof fn lemma_cargo_excluido(cargo: Seq<char>)
    ensures
        cargo_excluido(cargo) <==> is_infix(str_lowercase(cargo), "auditor"@),
{
}

/// Cargos que non interesan para as relacións (p.ex. auditores).
pub fn es_cargo_excluido(cargo: &str) -> (r: bool)
    ensures
        r == cargo_excluido(cargo@),
{
    let l = lowercase_str(cargo);
    let lv = chars_of(l.as_str());
    let needle = chars_of("auditor");
    contains_chars(&lv, &needle)
}

/// Patrón que captura o valor dun `<span itemprop="NOME">…</span>`.
pub open spec fn itemprop_pattern(prop: Seq<char>) -> Seq<char> {
    "(?is)itemprop=\""@ + prop + "\"[^>]*>(.*?)</span>"@
}

fn itemprop_re(prop: &str) -> (r: String)
    ensures
        r@ == itemprop_pattern(prop@),
{
    let mut v = chars_of("(?is)itemprop=\"");
    let mut p = chars_of(prop);
    let mut w = chars_of("\"[^>]*>(.*?)</span>");
    v.append(&mut p);
    v.append(&mut w);
    crate::text::string_of(v.as_slice())
}

/// Valor limpo da primeira coincidencia dunhas capturas de `itemprop`: o seu
/// primeiro grupo sen etiquetas, con entidades decodificadas e espazos
/// colapsados; baleiro se non houbo coincidencia.
pub open spec fn valor_capturas_spec(c: Seq<Seq<Option<Seq<char>>>>) -> Seq<char> {
    if c.len() > 0 {
        clean_text_spec(grupo_spec(c, 0, 1))
    } else {
        Seq::<char>::empty()
    }
}

/// Valor limpo da primeira aparición da propiedade microdata (baleiro se non está).
pub open spec fn itemprop_value(html: Seq<char>, prop: Seq<char>) -> Seq<char> {
    valor_capturas_spec(capturas_spec(itemprop_pattern(prop), html))
}

/// Texto limpo que deixan as capturas dun `itemprop`: o primeiro grupo da
/// primeira coincidencia, limpo; baleiro se non hai coincidencias.
pub fn valor_de_capturas(c: &Vec<Vec<Option<String>>>) -> (r: String)
    ensures
        r@ == valor_capturas_spec(caps_view(c@)),
{
    if c.len() > 0 {
        let g = grupo(c, 0, 1);
        clean_text(g.as_str())
    } else {
        String::new()
    }
}

fn itemprop(html: &str, prop: &str) -> (r: String)
    ensures
        r@ == itemprop_value(html@, prop@),
{
    let pat = itemprop_re(prop);
    let c = capturas(pat.as_str(), html);
    valor_de_capturas(&c)
}

/// Analiza a ficha HTML dunha empresa (CIF, domicilio, código postal, municipio
/// e provincia), que vén en microdata schema.org (`itemprop`).
pub fn parse_empresa_info(html: &str) -> (r: EmpresaInfo)
    ensures
        r.cif@ == itemprop_value(html@, "taxID"@),
        r.domicilio@ == itemprop_value(html@, "streetAddress"@),
        r.cod_postal@ == itemprop_value(html@, "postalCode"@),
        r.municipio@ == itemprop_value(html@, "addressLocality"@),
        r.provincia@ == itemprop_value(html@, "addressRegion"@),
{
    EmpresaInfo {
        cif: itemprop(html, "taxID"),
        domicilio: itemprop(html, "streetAddress"),
        cod_postal: itemprop(html, "postalCode"),
        municipio: itemprop(html, "addressLocality"),
        provincia: itemprop(html, "addressRegion"),
    }
}

/// Unha fila de cargo tal como a devolve a API de datoscif.
#[derive(Debug, Clone, Default)]
pub struct CargoRaw {
    pub cargo: String,
    pub persona_url: String,
    pub persona_nombre: String,
    pub desde: String,
    pub hasta: String,
}

/// Data ISO se se pode ler, ou o texto tal cal.
pub open spec fn data_ou_texto(s: Seq<char>) -> Seq<char> {
    match parse_data_spec(s) {
        Some(d) => d,
        None => s,
    }
}

/// O cargo consérvase: ten persoa e non é dos excluídos.
pub open spec fn cargo_conservado(r: CargoRaw) -> bool {
    trim(r.persona_url@).len() > 0 && !cargo_excluido(r.cargo@)
}

/// A fila de cargo `c` é a transformación da fila crúa `r`: as datas en ISO
/// cando se poden ler e activo se non ten data de fin.
pub open spec fn cargo_de(r: CargoRaw, c: CargoRow) -> bool {
    &&& c.persona_url@ == r.persona_url@
    &&& c.persona_nome@ == r.persona_nombre@
    &&& c.cargo@ == r.cargo@
    &&& c.desde@ == data_ou_texto(r.desde@)
    &&& c.hasta@ == data_ou_texto(r.hasta@)
    &&& c.activo == (trim(r.hasta@).len() == 0)
}

/// As filas conservadas, en orde.
pub open spec fn conservados(rs: Seq<CargoRaw>) -> Seq<CargoRaw>
    decreases rs.len(),
{
    if rs.len() == 0 {
        Seq::<CargoRaw>::empty()
    } else if cargo_conservado(rs.last()) {
        conservados(rs.drop_last()).push(rs.last())
    } else {
        conservados(rs.drop_last())
    }
}

fn data_ou_texto_exec(s: &String) -> (r: String)
    ensures
        r@ == data_ou_texto(s@),
{
    match parse_data(s.as_str()) {
        Some(d) => d,
        None => s.clone(),
    }
}

/// Filas de cargo dunha páxina: descártanse as que non teñen persoa e as dos
/// cargos excluídos; as datas pásanse a ISO cando se poden ler e o cargo está
/// activo se non ten data de fin.
pub fn cargos_da_paxina(datos: &Vec<CargoRaw>) -> (r: Vec<CargoRow>)
    ensures
        r@.len() == conservados(datos@).len(),
        forall|k: int| 0 <= k < r@.len() ==> cargo_de(conservados(datos@)[k], #[trigger] r@[k]),
{
    let mut out: Vec<CargoRow> = Vec::new();
    let mut i: usize = 0;
    while i < datos.len()
        invariant
            i <= datos@.len(),
            out@.len() == conservados(datos@.take(i as int)).len(),
            forall|k: int| 0 <= k < out@.len() ==> cargo_de(conservados(datos@.take(i as int))[k], #[trigger] out@[k]),
        decreases datos.len() - i,
    {
        let r = &datos[i];
        let ghost pre = datos@.take(i as int);
        assert(datos@.take(i + 1).drop_last() == pre);
        let url_trim = trim_str(r.persona_url.as_str());
        if !url_trim.as_str().is_empty() && !es_cargo_excluido(r.cargo.as_str()) {
            let hasta_trim = trim_str(r.hasta.as_str());
            let c = CargoRow {
                persona_url: r.persona_url.clone(),
                persona_nome: r.persona_nombre.clone(),
                cargo: r.cargo.clone(),
                desde: data_ou_texto_exec(&r.desde),
                hasta: data_ou_texto_exec(&r.hasta),
                activo: hasta_trim.as_str().is_empty(),
            };
            out.push(c);
        }
        i = i + 1;
    }
    assert(datos@.take(datos@.len() as int) == datos@);
    out
}

/// Tope de páxinas de cargos por entidade (rede de seguridade fronte a bucles).
pub const MAX_PAGINAS: i64 = 50;

/// Páxina seguinte de cargos a descargar tras a `pagina` (que informa de
/// `num_paginas` en total), ou `None` se xa non quedan ou se chegou ao tope.
pub fn seguinte_paxina_cargos(pagina: i64, num_paginas: i64) -> (r: Option<i64>)
    ensures
        r == (if pagina >= num_paginas || pagina >= MAX_PAGINAS {
            None
        } else {
            Some((pagina + 1) as i64)
        }),
{
    if pagina >= num_paginas || pagina >= MAX_PAGINAS {
        None
    } else {
        Some(pagina + 1)
    }
}

} // verus!
