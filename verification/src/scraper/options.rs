//! Opcións dos despregables de filtro da portada (`portada.jsp`).

use vstd::prelude::*;
use crate::text::{chars_of, string_of, trim, trim_str};
use crate::scraper::{capturas, capturas_spec, caps_view, grupo, grupo_spec, clean_text, clean_text_spec};

verus! {

/// Carácter con significado nunha expresión regular (`regex::is_meta_character`).
pub open spec fn is_meta_character(c: char) -> bool {
    c == '\\' || c == '.' || c == '+' || c == '*' || c == '?' || c == '(' || c == ')' || c == '|'
        || c == '[' || c == ']' || c == '{' || c == '}' || c == '^' || c == '$' || c == '#' || c == '&'
        || c == '-' || c == '~'
}

/// O texto cos caracteres con significado escapados cunha barra invertida.
pub open spec fn regex_escaped(s: Seq<char>) -> Seq<char>
    decreases s.len(),
{
    if s.len() == 0 {
        Seq::<char>::empty()
    } else if is_meta_character(s.last()) {
        regex_escaped(s.drop_last()) + seq!['\\', s.last()]
    } else {
        regex_escaped(s.drop_last()).push(s.last())
    }
}

fn es_meta(c: char) -> (r: bool)
    ensures
        r == is_meta_character(c),
{
    c == '\\' || c == '.' || c == '+' || c == '*' || c == '?' || c == '(' || c == ')' || c == '|'
        || c == '[' || c == ']' || c == '{' || c == '}' || c == '^' || c == '$' || c == '#' || c == '&'
        || c == '-' || c == '~'
}

/// Escapa cunha barra invertida os caracteres con significado nunha expresión
/// regular (o que fai `regex::escape`).
fn regex_escape(s: &str) -> (r: String)
    ensures
        r@ == regex_escaped(s@),
{
    let v = chars_of(s);
    let mut out: Vec<char> = Vec::new();
    let mut i: usize = 0;
    while i < v.len()
        invariant
            i <= v@.len(),
            v@ == s@,
            out@ == regex_escaped(v@.take(i as int)),
        decreases v.len() - i,
    {
        let c = v[i];
        assert(v@.take(i + 1).drop_last() == v@.take(i as int));
        if es_meta(c) {
            out.push('\\');
        }
        out.push(c);
        proof {
            if is_meta_character(c) {
                assert(out@ == regex_escaped(v@.take(i as int)) + seq!['\\', c]);
            }
        }
        i = i + 1;
    }
    assert(v@.take(v@.len() as int) == v@);
    string_of(out.as_slice())
}

/// Patrón das opcións dun despregable; o valor pode vir con comiñas dobres ou simples.
pub open spec fn option_pattern() -> Seq<char> {
    "(?is)<option[^>]*\\bvalue=[\"']([^\"']*)[\"'][^>]*>(.*?)</option>"@
}

fn option_re() -> (r: &'static str)
    ensures
        r@ == option_pattern(),
{
    "(?is)<option[^>]*\\bvalue=[\"']([^\"']*)[\"'][^>]*>(.*?)</option>"
}

/// Patrón do `<select>` co identificador dado.
pub open spec fn select_pattern(id: Seq<char>) -> Seq<char> {
    "(?is)<select[^>]*\\bid=\""@ + regex_escaped(id) + "\"[^>]*>(.*?)</select>"@
}

fn select_re(id: &str) -> (r: String)
    ensures
        r@ == select_pattern(id@),
{
    let mut v = chars_of("(?is)<select[^>]*\\bid=\"");
    let e = regex_escape(id);
    let mut m = chars_of(e.as_str());
    let mut w = chars_of("\"[^>]*>(.*?)</select>");
    v.append(&mut m);
    v.append(&mut w);
    string_of(v.as_slice())
}

/// Pares `(valor, etiqueta)` das opcións capturadas nas primeiras `i`
/// coincidencias: o valor recortado e a etiqueta limpa; sáltanse as opcións sen
/// valor.
pub open spec fn opcions_spec(c: Seq<Seq<Option<Seq<char>>>>, i: int) -> Seq<(Seq<char>, Seq<char>)>
    decreases i,
{
    if i <= 0 {
        Seq::empty()
    } else {
        let v = trim(grupo_spec(c, i - 1, 1));
        if v.len() == 0 {
            opcions_spec(c, i - 1)
        } else {
            opcions_spec(c, i - 1).push((v, clean_text_spec(grupo_spec(c, i - 1, 2))))
        }
    }
}

/// Vista dunha lista de pares de cadeas.
pub open spec fn pairs_view(v: Seq<(String, String)>) -> Seq<(Seq<char>, Seq<char>)> {
    v.map_values(|p: (String, String)| (p.0@, p.1@))
}

/// Pares `(valor, etiqueta)` das opcións capturadas (grupo 1 o valor, grupo 2 a
/// etiqueta): o valor recortado e a etiqueta limpa; sáltanse as opcións sen valor.
pub fn opcions_de_capturas(c: &Vec<Vec<Option<String>>>) -> (r: Vec<(String, String)>)
    ensures
        pairs_view(r@) == opcions_spec(caps_view(c@), c@.len() as int),
{
    let mut out: Vec<(String, String)> = Vec::new();
    let mut i: usize = 0;
    while i < c.len()
        invariant
            i <= c@.len(),
            pairs_view(out@) == opcions_spec(caps_view(c@), i as int),
        decreases c.len() - i,
    {
        let g1 = grupo(c, i, 1);
        let value = trim_str(g1.as_str());
        if !value.as_str().is_empty() {
            let g2 = grupo(c, i, 2);
            let label = clean_text(g2.as_str());
            let ghost old_out = out@;
            out.push((value, label));
            assert(pairs_view(out@) =~= pairs_view(old_out).push((out@.last().0@, out@.last().1@)));
        }
        i = i + 1;
    }
    out
}

/// Opcións do `<select>` de identificador `id`: as do contido da primeira
/// coincidencia (ningunha se non está).
pub open spec fn select_options_spec(html: Seq<char>, id: Seq<char>) -> Seq<(Seq<char>, Seq<char>)> {
    let c = capturas_spec(select_pattern(id), html);
    if c.len() == 0 {
        Seq::empty()
    } else {
        let o = capturas_spec(option_pattern(), grupo_spec(c, 0, 1));
        opcions_spec(o, o.len() as int)
    }
}

/// Extrae os pares `(valor, etiqueta)` das opcións dun `<select id="...">`.
pub fn select_options(html: &str, id: &str) -> (r: Vec<(String, String)>)
    ensures
        pairs_view(r@) == select_options_spec(html@, id@),
{
    let pat = select_re(id);
    let c = capturas(pat.as_str(), html);
    if c.len() == 0 {
        let v: Vec<(String, String)> = Vec::new();
        assert(pairs_view(v@) =~= Seq::empty());
        return v;
    }
    let inner = grupo(&c, 0, 1);
    let o = capturas(option_re(), inner.as_str());
    opcions_de_capturas(&o)
}

} // verus!
