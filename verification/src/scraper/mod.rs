//! Extracción de datos das páxinas de contratosdegalicia.gal e datoscif.es:
//! decodificación dos bytes do servidor, limpeza do texto dos fragmentos HTML e
//! capturas de expresións regulares.

pub mod datoscif;
pub mod detail;
pub mod options;

use vstd::prelude::*;
use crate::text::{chars_of, string_of, collapse_whitespace, collapse_ws, trim, trim_str};

verus! {

// ───────────────────────── Decodificación ─────────────────────────

/// Carácter que corresponde a un byte en windows-1252 (táboa do estándar
/// WHATWG: os bytes `0x80..=0x9F` teñen a súa táboa, o resto é Latin-1).
pub open spec fn cp1252(b: u8) -> char {
    if b < 0x80 || b >= 0xA0 {
        b as char
    } else {
        seq![
            '\u{20AC}', '\u{0081}', '\u{201A}', '\u{0192}', '\u{201E}', '\u{2026}', '\u{2020}', '\u{2021}',
            '\u{02C6}', '\u{2030}', '\u{0160}', '\u{2039}', '\u{0152}', '\u{008D}', '\u{017D}', '\u{008F}',
            '\u{0090}', '\u{2018}', '\u{2019}', '\u{201C}', '\u{201D}', '\u{2022}', '\u{2013}', '\u{2014}',
            '\u{02DC}', '\u{2122}', '\u{0161}', '\u{203A}', '\u{0153}', '\u{009D}', '\u{017E}', '\u{0178}'
        ][b - 0x80]
    }
}

/// Os bytes comezan cunha marca de orde de bytes (UTF-8, UTF-16LE ou UTF-16BE).
pub open spec fn has_bom(b: Seq<u8>) -> bool {
    ||| (b.len() >= 3 && b[0] == 0xEF && b[1] == 0xBB && b[2] == 0xBF)
    ||| (b.len() >= 2 && b[0] == 0xFF && b[1] == 0xFE)
    ||| (b.len() >= 2 && b[0] == 0xFE && b[1] == 0xFF)
}

/// Texto que resulta de decodificar os bytes como windows-1252 con detección de
/// BOM.
pub uninterp spec fn windows_1252_decoded(bytes: Seq<u8>) -> Seq<char>;

/// `encoding_rs::WINDOWS_1252.decode`: decodifica os bytes como windows-1252
/// (cada byte, un carácter segundo `cp1252`); se comezan cunha BOM, decodifícaos
/// na codificación que esta indica (UTF-8 ou UTF-16), o que non se detalla aquí.
#[verifier::external_body]
fn decode_windows_1252(bytes: &[u8]) -> (r: String)
    requires
        bytes@.len() <= usize::MAX / 4,
    ensures
        r@ == windows_1252_decoded(bytes@),
        !has_bom(bytes@) ==> r@ == bytes@.map_values(|b: u8| cp1252(b)),
{
    let (cow, _, _) = encoding_rs::WINDOWS_1252.decode(bytes);
    cow.into_owned()
}

/// Decodifica os bytes do servidor (ISO-8859-1 / windows-1252) a texto.
pub fn decode_bytes(bytes: &[u8]) -> (r: String)
    requires
        bytes@.len() <= usize::MAX / 4,
    ensures
        r@ == windows_1252_decoded(bytes@),
        !has_bom(bytes@) ==> r@ == bytes@.map_values(|b: u8| cp1252(b)),
{
    decode_windows_1252(bytes)
}

// ───────────────────────── Limpeza de texto HTML ─────────────────────────

/// Texto que resulta de decodificar as entidades HTML (`&amp;`, `&#225;`…).
pub uninterp spec fn html_entities_decoded(s: Seq<char>) -> Seq<char>;

/// `html_escape::decode_html_entities`: decodifica as referencias de carácter
/// HTML (con nome e numéricas, rematadas en `;`). Un texto sen `&` queda igual.
#[verifier::external_body]
fn decode_entities(s: &str) -> (r: String)
    ensures
        r@ == html_entities_decoded(s@),
        !s@.contains('&') ==> r@ == s@,
{
    html_escape::decode_html_entities(s).into_owned()
}

/// Estado do borrado de etiquetas tras ler `s`: o texto fóra das etiquetas e se
/// se está dentro dunha etiqueta (entre `<` e `>`).
pub open spec fn strip_state(s: Seq<char>) -> (Seq<char>, bool)
    decreases s.len(),
{
    if s.len() == 0 {
        (Seq::<char>::empty(), false)
    } else {
        let (o, dentro) = strip_state(s.drop_last());
        let c = s.last();
        if c == '<' {
            (o, true)
        } else if c == '>' {
            (o, false)
        } else if !dentro {
            (o.push(c), dentro)
        } else {
            (o, dentro)
        }
    }
}

/// O texto sen as etiquetas HTML.
pub open spec fn strip_tags(s: Seq<char>) -> Seq<char> {
    strip_state(s).0
}

/// Texto limpo dun fragmento HTML: sen etiquetas, coas entidades decodificadas
/// e as palabras unidas por un único espazo.
pub open spec fn clean_text_spec(s: Seq<char>) -> Seq<char> {
    collapse_ws(html_entities_decoded(strip_tags(s)))
}

/// Quita as etiquetas HTML dun texto.
pub fn quita_etiquetas(s: &Vec<char>) -> (r: Vec<char>)
    ensures
        r@ == strip_tags(s@),
{
    let mut out: Vec<char> = Vec::new();
    let mut dentro = false;
    let mut i: usize = 0;
    while i < s.len()
        invariant
            i <= s@.len(),
            (out@, dentro) == strip_state(s@.take(i as int)),
        decreases s.len() - i,
    {
        let c = s[i];
        assert(s@.take(i + 1).drop_last() == s@.take(i as int));
        if c == '<' {
            dentro = true;
        } else if c == '>' {
            dentro = false;
        } else if !dentro {
            out.push(c);
        }
        i = i + 1;
    }
    assert(s@.take(s@.len() as int) == s@);
    out
}

/// Une as palabras dun texto cun único espazo (`split_whitespace().join(" ")`).
pub fn normaliza_espazos(s: &str) -> (r: String)
    ensures
        r@ == collapse_ws(s@),
{
    let v = chars_of(s);
    let c = collapse_whitespace(&v);
    string_of(c.as_slice())
}

/// Elimina as etiquetas HTML, decodifica as entidades e colapsa os espazos. Un
/// texto sen marcas HTML (`<`, `>`, `&`) só cambia na normalización dos espazos.
pub fn clean_text(fragment: &str) -> (r: String)
    ensures
        r@ == clean_text_spec(fragment@),
        !fragment@.contains('<') && !fragment@.contains('>') && !fragment@.contains('&') ==> r@
            == collapse_ws(fragment@),
{
    let v = chars_of(fragment);
    proof {
        if !fragment@.contains('<') && !fragment@.contains('>') {
            lemma_strip_plain(fragment@);
        }
    }
    let sen = quita_etiquetas(&v);
    let s = string_of(sen.as_slice());
    let d = decode_entities(s.as_str());
    normaliza_espazos(d.as_str())
}

proof fn lemma_strip_plain(s: Seq<char>)
    requires
        !s.contains('<'),
        !s.contains('>'),
    ensures
        strip_state(s) == (s, false),
    decreases s.len(),
{
    if s.len() > 0 {
        let t = s.drop_last();
        assert forall|c: char| t.contains(c) implies s.contains(c) by {
            let i = choose|i: int| 0 <= i < t.len() && t[i] == c;
            assert(s[i] == c);
        }
        lemma_strip_plain(t);
        assert(s.contains(s.last()));
        assert(t.push(s.last()) == s);
    } else {
        assert(s == Seq::<char>::empty());
    }
}

proof fn lemma_strip_state_sen_etiquetas(s: Seq<char>)
    ensures
        !strip_state(s).0.contains('<'),
        !strip_state(s).0.contains('>'),
        forall|c: char| strip_state(s).0.contains(c) ==> s.contains(c),
    decreases s.len(),
{
    if s.len() > 0 {
        let t = s.drop_last();
        lemma_strip_state_sen_etiquetas(t);
        let o = strip_state(t).0;
        let r = strip_state(s).0;
        assert forall|c: char| t.contains(c) implies s.contains(c) by {
            let i = choose|i: int| 0 <= i < t.len() && t[i] == c;
            assert(s[i] == c);
        }
        assert(s[s.len() - 1] == s.last());
        if r != o {
            assert(r == o.push(s.last()));
            assert forall|c: char| r.contains(c) implies s.contains(c) by {
                let i = choose|i: int| 0 <= i < r.len() && r[i] == c;
                if i < o.len() {
                    assert(o[i] == c);
                }
            }
            if r.contains('<') {
                let i = choose|i: int| 0 <= i < r.len() && r[i] == '<';
                if i < o.len() {
                    assert(o[i] == '<');
                }
            }
            if r.contains('>') {
                let i = choose|i: int| 0 <= i < r.len() && r[i] == '>';
                if i < o.len() {
                    assert(o[i] == '>');
                }
            }
        }
    }
}

/// Lei: quitar as etiquetas deixa un texto sen `<` nin `>`, feito só de
/// caracteres do orixinal, e un texto sen `<` nin `>` queda igual.
pub proof fn lemma_quita_etiquetas(s: Seq<char>)
    ensures
        !strip_tags(s).contains('<'),
        !strip_tags(s).contains('>'),
        forall|c: char| strip_tags(s).contains(c) ==> s.contains(c),
        !s.contains('<') && !s.contains('>') ==> strip_tags(s) == s,
{
    lemma_strip_state_sen_etiquetas(s);
    if !s.contains('<') && !s.contains('>') {
        lemma_strip_plain(s);
    }
}

// ───────────────────────── Expresións regulares ─────────────────────────

/// Capturas dunha busca: unha secuencia por coincidencia cos grupos (o 0 é a
/// coincidencia enteira; `None` se o grupo non participou).
pub open spec fn caps_view(c: Seq<Vec<Option<String>>>) -> Seq<Seq<Option<Seq<char>>>> {
    c.map_values(|m: Vec<Option<String>>| m@.map_values(|g: Option<String>| match g {
        Some(s) => Some(s@),
        None => None,
    }))
}

/// Capturas de todas as coincidencias, sen solaparse e de esquerda a dereita, do
/// patrón no texto (`None` se o patrón non é válido).
pub uninterp spec fn regex_captures(pattern: Seq<char>, hay: Seq<char>) -> Option<Seq<Seq<Option<Seq<char>>>>>;

/// `regex::Regex::new` e `Regex::captures_iter`: as capturas de todas as
/// coincidencias do patrón no texto, ou `None` se o patrón non compila.
#[verifier::external_body]
fn regex_captures_all(pattern: &str, hay: &str) -> (r: Option<Vec<Vec<Option<String>>>>)
    ensures
        match r {
            Some(c) => regex_captures(pattern@, hay@) == Some(caps_view(c@)),
            None => regex_captures(pattern@, hay@) is None,
        },
{
    match regex::Regex::new(pattern) {
        Ok(re) => Some(
            re.captures_iter(hay).map(|c| c.iter().map(|m| m.map(|m| m.as_str().to_string())).collect()).collect(),
        ),
        Err(_) => None,
    }
}

/// As capturas do patrón no texto (ningunha se o patrón non é válido).
pub open spec fn capturas_spec(pattern: Seq<char>, hay: Seq<char>) -> Seq<Seq<Option<Seq<char>>>> {
    match regex_captures(pattern, hay) {
        Some(c) => c,
        None => Seq::empty(),
    }
}

/// As capturas de todas as coincidencias do patrón no texto.
pub fn capturas(pattern: &str, hay: &str) -> (r: Vec<Vec<Option<String>>>)
    ensures
        caps_view(r@) == capturas_spec(pattern@, hay@),
{
    match regex_captures_all(pattern, hay) {
        Some(c) => c,
        None => {
            let v: Vec<Vec<Option<String>>> = Vec::new();
            assert(caps_view(v@) =~= Seq::empty());
            v
        },
    }
}

/// O grupo `g` da coincidencia `i` (baleiro se non existe ou non participou).
pub open spec fn grupo_spec(c: Seq<Seq<Option<Seq<char>>>>, i: int, g: int) -> Seq<char> {
    if 0 <= i < c.len() && 0 <= g < c[i].len() {
        match c[i][g] {
            Some(s) => s,
            None => Seq::empty(),
        }
    } else {
        Seq::empty()
    }
}

/// O grupo `g` da coincidencia `i` (baleiro se non existe ou non participou).
pub fn grupo(c: &Vec<Vec<Option<String>>>, i: usize, g: usize) -> (r: String)
    ensures
        r@ == grupo_spec(caps_view(c@), i as int, g as int),
{
    if i < c.len() && g < c[i].len() {
        match &c[i][g] {
            Some(s) => s.clone(),
            None => String::new(),
        }
    } else {
        String::new()
    }
}

} // verus!
