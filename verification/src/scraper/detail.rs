//! Detalle dun contrato: campos `dt/dd`, táboa de resolución (un lote por fila),
//! NIF dos adxudicatarios e UTE adxudicatarias cos seus membros.

use vstd::prelude::*;
use crate::model::{company_key, company_key_seq, normalize_nif, nif_seq, ContractDetail, Resolucion, Ute, UteMembro};
use crate::text::{chars_of, string_of, trim, trim_str, is_infix, contains_chars, busca, find_spec, alfabetico, is_alphabetic, lowercase_str, str_lowercase};
use crate::scraper::{capturas, capturas_spec, caps_view, grupo, grupo_spec, clean_text, clean_text_spec};
use crate::scraper::options::pairs_view;
use crate::orde::{lex_le, lex_le_exec, lemma_lex_total, lemma_lex_trans, lemma_lex_refl, perm_of, perm_tail, lemma_perm_tail_insert, lemma_perm_tail_done};

verus! {

// ───────────────────────── Patróns ─────────────────────────

/// Token NIF/CIF español: CIF de empresa, NIF de persoa (8 díxitos e letra) ou NIE.
pub open spec fn nif_pattern() -> Seq<char> {
    r"(?i)\b([ABCDEFGHJNPQRSUVW][0-9]{7}[0-9A-J]|[XYZ][0-9]{7}[A-Z]|[0-9]{8}[A-Z])\b"@
}

fn nif_re() -> (r: &'static str)
    ensures
        r@ == nif_pattern(),
{
    r"(?i)\b([ABCDEFGHJNPQRSUVW][0-9]{7}[0-9A-J]|[XYZ][0-9]{7}[A-Z]|[0-9]{8}[A-Z])\b"
}

/// Filas da táboa oculta de licitadores (`<tr class="… filasLicitadores …">`).
pub open spec fn filaslic_pattern() -> Seq<char> {
    r"(?is)<tr[^>]*filasLicitadores[^>]*>(.*?)</tr>"@
}

fn filaslic_re() -> (r: &'static str)
    ensures
        r@ == filaslic_pattern(),
{
    r"(?is)<tr[^>]*filasLicitadores[^>]*>(.*?)</tr>"
}

/// Celas dunha fila de táboa.
pub open spec fn cell_pattern() -> Seq<char> {
    r"(?is)<t[dh][^>]*>(.*?)</t[dh]>"@
}

fn cell_re() -> (r: &'static str)
    ensures
        r@ == cell_pattern(),
{
    r"(?is)<t[dh][^>]*>(.*?)</t[dh]>"
}

/// Cela «Nome <br/> NIF» da táboa de formalización: o texto antes do `<br>` e o
/// que vén despois ata a seguinte etiqueta.
pub open spec fn name_br_nif_pattern() -> Seq<char> {
    r"(?is)([^<>]{4,})<br\s*/?>([^<]{4,40})"@
}

fn name_br_nif_re() -> (r: &'static str)
    ensures
        r@ == name_br_nif_pattern(),
{
    r"(?is)([^<>]{4,})<br\s*/?>([^<]{4,40})"
}

/// Elementos dunha lista.
pub open spec fn li_pattern() -> Seq<char> {
    r"(?is)<li[^>]*>(.*?)</li>"@
}

fn li_re() -> (r: &'static str)
    ensures
        r@ == li_pattern(),
{
    r"(?is)<li[^>]*>(.*?)</li>"
}

/// Pares `dt/dd` (etiqueta e valor).
pub open spec fn dt_dd_pattern() -> Seq<char> {
    r"(?is)<dt[^>]*>(.*?)</dt>\s*<dd[^>]*>(.*?)</dd>"@
}

fn dt_dd_re() -> (r: &'static str)
    ensures
        r@ == dt_dd_pattern(),
{
    r"(?is)<dt[^>]*>(.*?)</dt>\s*<dd[^>]*>(.*?)</dd>"
}

/// Filas dunha táboa.
pub open spec fn tr_pattern() -> Seq<char> {
    r"(?is)<tr[^>]*>(.*?)</tr>"@
}

fn tr_re() -> (r: &'static str)
    ensures
        r@ == tr_pattern(),
{
    r"(?is)<tr[^>]*>(.*?)</tr>"
}

/// Inputs ocultos `ADX_NOM_*`/`ADX_CIF_*` cos adxudicatarios reais.
pub open spec fn input_adx_pattern() -> Seq<char> {
    r#"(?is)id="ADX_(?:NOM|CIF)_([0-9]+_[0-9]+_[0-9]+)"\s*value\s*=\s*"([^"]*)""#@
}

fn input_adx_re() -> (r: &'static str)
    ensures
        r@ == input_adx_pattern(),
{
    r#"(?is)id="ADX_(?:NOM|CIF)_([0-9]+_[0-9]+_[0-9]+)"\s*value\s*=\s*"([^"]*)""#
}

// ───────────────────────── NIF ─────────────────────────

/// O texto contén un token NIF/CIF.
pub open spec fn is_nif(s: Seq<char>) -> bool {
    capturas_spec(nif_pattern(), s).len() > 0
}

/// O primeiro token NIF/CIF do texto.
pub open spec fn nif_find(s: Seq<char>) -> Option<Seq<char>> {
    if is_nif(s) {
        Some(grupo_spec(capturas_spec(nif_pattern(), s), 0, 0))
    } else {
        None
    }
}

/// O texto contén un token NIF/CIF.
pub fn es_nif(s: &str) -> (r: bool)
    ensures
        r == is_nif(s@),
{
    capturas(nif_re(), s).len() > 0
}

/// O primeiro token NIF/CIF do texto.
pub fn atopa_nif(s: &str) -> (r: Option<String>)
    ensures
        match r {
            Some(t) => nif_find(s@) == Some(t@),
            None => nif_find(s@) is None,
        },
{
    let c = capturas(nif_re(), s);
    if c.len() > 0 {
        Some(grupo(&c, 0, 0))
    } else {
        None
    }
}

/// Contido crú das celas dunha fila (grupo 1 de cada coincidencia).
pub open spec fn celas_spec(row: Seq<char>) -> Seq<Seq<char>> {
    let c = capturas_spec(cell_pattern(), row);
    Seq::new(c.len(), |j: int| grupo_spec(c, j, 1))
}

/// Vista dunha lista de cadeas.
pub open spec fn strs_view(v: Seq<String>) -> Seq<Seq<char>> {
    v.map_values(|s: String| s@)
}

/// Contido crú das celas dunha fila.
pub fn celas(row: &str) -> (r: Vec<String>)
    ensures
        strs_view(r@) == celas_spec(row@),
{
    let c = capturas(cell_re(), row);
    let mut out: Vec<String> = Vec::new();
    let mut j: usize = 0;
    while j < c.len()
        invariant
            j <= c@.len(),
            strs_view(out@) == Seq::new(j as nat, |k: int| grupo_spec(caps_view(c@), k, 1)),
        decreases c.len() - j,
    {
        let ghost old_out = out@;
        let g = grupo(&c, j, 1);
        out.push(g);
        assert(strs_view(out@) =~= strs_view(old_out).push(g@));
        j = j + 1;
        assert(strs_view(out@) =~= Seq::new(j as nat, |k: int| grupo_spec(caps_view(c@), k, 1)));
    }
    assert(strs_view(out@) =~= celas_spec(row@));
    out
}

/// Texto limpo de cada cela.
pub open spec fn limpas(cs: Seq<Seq<char>>) -> Seq<Seq<char>> {
    cs.map_values(|c: Seq<char>| clean_text_spec(c))
}

/// Texto limpo de cada cela.
pub fn limpa_celas(cs: &Vec<String>) -> (r: Vec<String>)
    ensures
        strs_view(r@) == limpas(strs_view(cs@)),
{
    let mut out: Vec<String> = Vec::new();
    let mut j: usize = 0;
    while j < cs.len()
        invariant
            j <= cs@.len(),
            strs_view(out@) == limpas(strs_view(cs@)).take(j as int),
        decreases cs.len() - j,
    {
        let ghost old_out = out@;
        let t = clean_text(cs[j].as_str());
        out.push(t);
        assert(strs_view(out@) =~= strs_view(old_out).push(t@));
        j = j + 1;
        assert(strs_view(out@) =~= limpas(strs_view(cs@)).take(j as int));
    }
    assert(limpas(strs_view(cs@)).take(cs@.len() as int) =~= limpas(strs_view(cs@)));
    out
}

// ───────────────────────── Múltiples adxudicatarios ─────────────────────────

/// Sufixos `N_N_N` distintos das primeiras `i` coincidencias, na orde da súa
/// primeira aparición.
pub open spec fn adx_orden(c: Seq<Seq<Option<Seq<char>>>>, i: int) -> Seq<Seq<char>>
    decreases i,
{
    if i <= 0 {
        Seq::empty()
    } else {
        let o = adx_orden(c, i - 1);
        let s = grupo_spec(c, i - 1, 1);
        if o.contains(s) {
            o
        } else {
            o.push(s)
        }
    }
}

/// Valores limpos das primeiras `i` coincidencias co sufixo `suf`, en orde.
pub open spec fn adx_vals(c: Seq<Seq<Option<Seq<char>>>>, suf: Seq<char>, i: int) -> Seq<Seq<char>>
    decreases i,
{
    if i <= 0 {
        Seq::empty()
    } else {
        let v = adx_vals(c, suf, i - 1);
        if grupo_spec(c, i - 1, 1) == suf {
            v.push(clean_text_spec(grupo_spec(c, i - 1, 2)))
        } else {
            v
        }
    }
}

/// O primeiro valor que é (`nif`) ou non é un NIF.
pub open spec fn primeiro(vs: Seq<Seq<char>>, nif: bool) -> Option<Seq<char>>
    decreases vs.len(),
{
    if vs.len() == 0 {
        None
    } else if is_nif(vs[0]) == nif {
        Some(vs[0])
    } else {
        primeiro(vs.drop_first(), nif)
    }
}

/// Adxudicatarios `(nome, cif)` dos primeiros `k` sufixos: en cada un, o nome é
/// o primeiro valor que non é un NIF e o CIF o primeiro que o é (o portal
/// troca os dous inputs); sáltanse os que non teñen ambos ou teñen o nome baleiro.
pub open spec fn multiples_upto(c: Seq<Seq<Option<Seq<char>>>>, k: int) -> Seq<(Seq<char>, Seq<char>)>
    decreases k,
{
    if k <= 0 {
        Seq::empty()
    } else {
        let acc = multiples_upto(c, k - 1);
        let vs = adx_vals(c, adx_orden(c, c.len() as int)[k - 1], c.len() as int);
        match (primeiro(vs, false), primeiro(vs, true)) {
            (Some(n), Some(f)) => if trim(n).len() > 0 {
                acc.push((trim(n), nif_seq(f)))
            } else {
                acc
            },
            _ => acc,
        }
    }
}

/// Adxudicatarios `(nome, cif)` das capturas dos inputs ocultos.
pub open spec fn multiples_spec(c: Seq<Seq<Option<Seq<char>>>>) -> Seq<(Seq<char>, Seq<char>)> {
    multiples_upto(c, adx_orden(c, c.len() as int).len() as int)
}

/// Adxudicatarios reais dunha cela «Múltiples adxudicatarios».
pub open spec fn parse_multiples_adx_spec(cell: Seq<char>) -> Seq<(Seq<char>, Seq<char>)> {
    if !is_infix(cell, "ADX_"@) {
        Seq::empty()
    } else {
        multiples_spec(capturas_spec(input_adx_pattern(), cell))
    }
}

fn conten(v: &Vec<String>, s: &String) -> (r: bool)
    ensures
        r == strs_view(v@).contains(s@),
{
    let mut i: usize = 0;
    while i < v.len()
        invariant
            i <= v@.len(),
            forall|k: int| 0 <= k < i ==> v@[k]@ != s@,
        decreases v.len() - i,
    {
        if v[i] == *s {
            assert(strs_view(v@)[i as int] == s@);
            return true;
        }
        i = i + 1;
    }
    assert forall|k: int| 0 <= k < strs_view(v@).len() implies strs_view(v@)[k] != s@ by {
        assert(strs_view(v@)[k] == v@[k]@);
    }
    false
}

fn orden_adx(c: &Vec<Vec<Option<String>>>) -> (r: Vec<String>)
    ensures
        strs_view(r@) == adx_orden(caps_view(c@), c@.len() as int),
{
    let mut out: Vec<String> = Vec::new();
    let mut i: usize = 0;
    while i < c.len()
        invariant
            i <= c@.len(),
            strs_view(out@) == adx_orden(caps_view(c@), i as int),
        decreases c.len() - i,
    {
        let s = grupo(c, i, 1);
        if !conten(&out, &s) {
            let ghost old_out = out@;
            out.push(s);
            assert(strs_view(out@) =~= strs_view(old_out).push(s@));
        }
        i = i + 1;
    }
    out
}

fn vals_adx(c: &Vec<Vec<Option<String>>>, suf: &String) -> (r: Vec<String>)
    ensures
        strs_view(r@) == adx_vals(caps_view(c@), suf@, c@.len() as int),
{
    let mut out: Vec<String> = Vec::new();
    let mut i: usize = 0;
    while i < c.len()
        invariant
            i <= c@.len(),
            strs_view(out@) == adx_vals(caps_view(c@), suf@, i as int),
        decreases c.len() - i,
    {
        let s = grupo(c, i, 1);
        if s == *suf {
            let g = grupo(c, i, 2);
            let t = clean_text(g.as_str());
            let ghost old_out = out@;
            out.push(t);
            assert(strs_view(out@) =~= strs_view(old_out).push(t@));
        }
        i = i + 1;
    }
    out
}

fn primeiro_exec(vs: &Vec<String>, nif: bool) -> (r: Option<String>)
    ensures
        match r {
            Some(t) => primeiro(strs_view(vs@), nif) == Some(t@),
            None => primeiro(strs_view(vs@), nif) is None,
        },
{
    let mut i: usize = 0;
    proof {
        assert(strs_view(vs@).subrange(0, vs@.len() as int) =~= strs_view(vs@));
    }
    while i < vs.len()
        invariant
            i <= vs@.len(),
            primeiro(strs_view(vs@), nif) == primeiro(strs_view(vs@).subrange(i as int, vs@.len() as int), nif),
        decreases vs.len() - i,
    {
        let ghost rest = strs_view(vs@).subrange(i as int, vs@.len() as int);
        assert(rest[0] == vs@[i as int]@);
        if es_nif(vs[i].as_str()) == nif {
            return Some(vs[i].clone());
        }
        assert(rest.drop_first() =~= strs_view(vs@).subrange(i + 1, vs@.len() as int));
        i = i + 1;
    }
    None
}

/// Adxudicatarios `(nome, cif)` das capturas dos inputs ocultos `ADX_NOM_*` e
/// `ADX_CIF_*` (grupo 1 o sufixo, grupo 2 o valor): un por sufixo, na orde da
/// súa primeira aparición, co nome recortado e o CIF normalizado.
pub fn multiples_de_capturas(c: &Vec<Vec<Option<String>>>) -> (r: Vec<(String, String)>)
    ensures
        pairs_view(r@) == multiples_spec(caps_view(c@)),
{
    let orden = orden_adx(c);
    let ghost cv = caps_view(c@);
    let mut out: Vec<(String, String)> = Vec::new();
    let mut k: usize = 0;
    while k < orden.len()
        invariant
            k <= orden@.len(),
            cv == caps_view(c@),
            strs_view(orden@) == adx_orden(cv, c@.len() as int),
            pairs_view(out@) == multiples_upto(cv, k as int),
        decreases orden.len() - k,
    {
        let vs = vals_adx(c, &orden[k]);
        assert(strs_view(orden@)[k as int] == orden@[k as int]@);
        let nome = primeiro_exec(&vs, false);
        let cif = primeiro_exec(&vs, true);
        match (nome, cif) {
            (Some(n), Some(f)) => {
                let nt = trim_str(n.as_str());
                if !nt.as_str().is_empty() {
                    let nf = normalize_nif(f.as_str());
                    let ghost old_out = out@;
                    out.push((nt, nf));
                    assert(pairs_view(out@) =~= pairs_view(old_out).push((nt@, nf@)));
                }
            },
            _ => {},
        }
        k = k + 1;
    }
    out
}

/// Extrae os adxudicatarios reais dunha cela «Múltiples adxudicatarios»: veñen
/// en inputs ocultos `ADX_NOM_*` e `ADX_CIF_*` (que o portal troca, así que se
/// asignan por patrón de NIF). Devolve `(nome, cif)` por orde.
pub fn parse_multiples_adx(cell: &str) -> (r: Vec<(String, String)>)
    ensures
        pairs_view(r@) == parse_multiples_adx_spec(cell@),
{
    let cv = chars_of(cell);
    let needle = chars_of("ADX_");
    if !contains_chars(&cv, &needle) {
        let v: Vec<(String, String)> = Vec::new();
        assert(pairs_view(v@) =~= Seq::empty());
        return v;
    }
    let c = capturas(input_adx_re(), cell);
    multiples_de_capturas(&c)
}

// ───────────────────────── Mapa de NIF ─────────────────────────

/// Clave de empresa e NIF do mapa, sen claves repetidas, na orde de inserción.
pub type NifMap = Seq<(Seq<char>, Seq<char>)>;

/// O mapa ten a clave.
pub open spec fn map_has(m: NifMap, k: Seq<char>) -> bool {
    exists|i: int| 0 <= i < m.len() && (#[trigger] m[i]).0 == k
}

/// NIF da primeira entrada coa clave.
pub open spec fn map_get(m: NifMap, k: Seq<char>) -> Option<Seq<char>>
    decreases m.len(),
{
    if m.len() == 0 {
        None
    } else if m[0].0 == k {
        Some(m[0].1)
    } else {
        map_get(m.drop_first(), k)
    }
}

/// Engade ao mapa a clave do nome co NIF normalizado, se ambos non son
/// baleiros e a clave aínda non está (a primeira gaña).
pub open spec fn map_add(m: NifMap, nome: Seq<char>, nif: Seq<char>) -> NifMap {
    let k = company_key_seq(nome);
    let n = nif_seq(nif);
    if k.len() > 0 && n.len() > 0 && !map_has(m, k) {
        m.push((k, n))
    } else {
        m
    }
}

/// Número de letras (`char::is_alphabetic`) do texto.
pub open spec fn alfa_count(s: Seq<char>) -> nat
    decreases s.len(),
{
    if s.len() == 0 {
        0
    } else {
        alfa_count(s.drop_last()) + if alfabetico(s.last()) {
            1nat
        } else {
            0nat
        }
    }
}

/// Entre as primeiras `i` celas que non son un NIF, a de máis letras (a última
/// en caso de empate).
pub open spec fn max_alfa(cs: Seq<Seq<char>>, i: int) -> Option<Seq<char>>
    decreases i,
{
    if i <= 0 {
        None
    } else {
        let b = max_alfa(cs, i - 1);
        let c = cs[i - 1];
        if is_nif(c) {
            b
        } else {
            match b {
                None => Some(c),
                Some(x) => if alfa_count(c) >= alfa_count(x) {
                    Some(c)
                } else {
                    b
                },
            }
        }
    }
}

/// Engade o par dunha fila de licitadores (celas limpas): o NIF é o primeiro
/// token NIF da primeira cela que o contén e o nome a cela con máis letras das
/// demais, se ten polo menos catro.
pub open spec fn fila_add(m: NifMap, cells: Seq<Seq<char>>) -> NifMap {
    match primeiro(cells, true) {
        None => m,
        Some(nc) => match nif_find(nc) {
            None => m,
            Some(v) => match max_alfa(cells, cells.len() as int) {
                Some(nome) => if alfa_count(nome) >= 4 {
                    map_add(m, nome, v)
                } else {
                    m
                },
                None => m,
            },
        },
    }
}

/// O mapa tras as primeiras `i` filas de licitadores.
pub open spec fn nif_map_filas(f: Seq<Seq<Option<Seq<char>>>>, i: int) -> NifMap
    decreases i,
{
    if i <= 0 {
        Seq::empty()
    } else {
        fila_add(nif_map_filas(f, i - 1), limpas(celas_spec(grupo_spec(f, i - 1, 1))))
    }
}

/// O mapa tras as primeiras `j` celas «Nome <br/> NIF».
pub open spec fn nif_map_br(b: Seq<Seq<Option<Seq<char>>>>, j: int, m0: NifMap) -> NifMap
    decreases j,
{
    if j <= 0 {
        m0
    } else {
        let m = nif_map_br(b, j - 1, m0);
        match nif_find(clean_text_spec(grupo_spec(b, j - 1, 2))) {
            Some(v) => map_add(m, clean_text_spec(grupo_spec(b, j - 1, 1)), v),
            None => m,
        }
    }
}

/// Mapa «clave de empresa → NIF» das táboas de licitadores e de formalización.
pub open spec fn nif_map_spec(html: Seq<char>) -> NifMap {
    let f = capturas_spec(filaslic_pattern(), html);
    let b = capturas_spec(name_br_nif_pattern(), html);
    nif_map_br(b, b.len() as int, nif_map_filas(f, f.len() as int))
}

fn alfa_exec(s: &String) -> (r: usize)
    ensures
        r == alfa_count(s@),
{
    let v = chars_of(s.as_str());
    let mut n: usize = 0;
    let mut i: usize = 0;
    while i < v.len()
        invariant
            i <= v@.len(),
            v@ == s@,
            n == alfa_count(v@.take(i as int)),
            n <= i,
        decreases v.len() - i,
    {
        assert(v@.take(i + 1).drop_last() == v@.take(i as int));
        if is_alphabetic(v[i]) {
            n = n + 1;
        }
        i = i + 1;
    }
    assert(v@.take(v@.len() as int) == v@);
    n
}

fn map_has_exec(m: &Vec<(String, String)>, k: &String) -> (r: bool)
    ensures
        r == map_has(pairs_view(m@), k@),
{
    let mut i: usize = 0;
    while i < m.len()
        invariant
            i <= m@.len(),
            forall|j: int| 0 <= j < i ==> m@[j].0@ != k@,
        decreases m.len() - i,
    {
        if m[i].0 == *k {
            assert(pairs_view(m@)[i as int].0 == k@);
            return true;
        }
        i = i + 1;
    }
    assert forall|j: int| 0 <= j < pairs_view(m@).len() implies (#[trigger] pairs_view(m@)[j]).0 != k@ by {
        assert(pairs_view(m@)[j].0 == m@[j].0@);
    }
    false
}

fn map_add_exec(m: &mut Vec<(String, String)>, nome: &str, nif: &str)
    ensures
        pairs_view(final(m)@) == map_add(pairs_view(old(m)@), nome@, nif@),
{
    let k = company_key(nome);
    let n = normalize_nif(nif);
    if !k.as_str().is_empty() && !n.as_str().is_empty() && !map_has_exec(m, &k) {
        let ghost old_m = m@;
        m.push((k, n));
        assert(pairs_view(m@) =~= pairs_view(old_m).push((k@, n@)));
    }
}

fn max_alfa_exec(cs: &Vec<String>) -> (r: Option<String>)
    ensures
        match r {
            Some(t) => max_alfa(strs_view(cs@), cs@.len() as int) == Some(t@),
            None => max_alfa(strs_view(cs@), cs@.len() as int) is None,
        },
{
    let mut best: Option<String> = None;
    let mut best_n: usize = 0;
    let mut i: usize = 0;
    while i < cs.len()
        invariant
            i <= cs@.len(),
            match best {
                Some(t) => max_alfa(strs_view(cs@), i as int) == Some(t@) && best_n == alfa_count(t@),
                None => max_alfa(strs_view(cs@), i as int) is None,
            },
        decreases cs.len() - i,
    {
        assert(strs_view(cs@)[i as int] == cs@[i as int]@);
        if !es_nif(cs[i].as_str()) {
            let n = alfa_exec(&cs[i]);
            match best {
                None => {
                    best = Some(cs[i].clone());
                    best_n = n;
                },
                Some(_) => {
                    if n >= best_n {
                        best = Some(cs[i].clone());
                        best_n = n;
                    }
                },
            }
        }
        i = i + 1;
    }
    best
}

/// Engade ao mapa o par dunha fila de licitadores (celas limpas).
pub fn engade_fila(m: &mut Vec<(String, String)>, cells: &Vec<String>)
    ensures
        pairs_view(final(m)@) == fila_add(pairs_view(old(m)@), strs_view(cells@)),
{
    match primeiro_exec(cells, true) {
        None => {},
        Some(nc) => match atopa_nif(nc.as_str()) {
            None => {},
            Some(v) => match max_alfa_exec(cells) {
                Some(nome) => {
                    if alfa_exec(&nome) >= 4 {
                        map_add_exec(m, nome.as_str(), v.as_str());
                    }
                },
                None => {},
            },
        },
    }
}

/// Extrae un mapa «clave de empresa → NIF» (pares sen claves repetidas, na orde
/// de inserción) das táboas ocultas de licitadores e de formalización do
/// detalle: a táboa de resolución só trae o nome do adxudicatario.
pub fn extract_nif_map(html: &str) -> (r: Vec<(String, String)>)
    ensures
        pairs_view(r@) == nif_map_spec(html@),
{
    let f = capturas(filaslic_re(), html);
    let mut m: Vec<(String, String)> = Vec::new();
    let mut i: usize = 0;
    assert(pairs_view(m@) =~= Seq::empty());
    while i < f.len()
        invariant
            i <= f@.len(),
            pairs_view(m@) == nif_map_filas(caps_view(f@), i as int),
        decreases f.len() - i,
    {
        let row = grupo(&f, i, 1);
        let raw = celas(row.as_str());
        let cells = limpa_celas(&raw);
        engade_fila(&mut m, &cells);
        i = i + 1;
    }
    let b = capturas(name_br_nif_re(), html);
    let ghost m0 = pairs_view(m@);
    let mut j: usize = 0;
    while j < b.len()
        invariant
            j <= b@.len(),
            pairs_view(m@) == nif_map_br(caps_view(b@), j as int, m0),
        decreases b.len() - j,
    {
        let g2 = grupo(&b, j, 2);
        let despois = clean_text(g2.as_str());
        match atopa_nif(despois.as_str()) {
            Some(v) => {
                let g1 = grupo(&b, j, 1);
                let nome = clean_text(g1.as_str());
                map_add_exec(&mut m, nome.as_str(), v.as_str());
            },
            None => {},
        }
        j = j + 1;
    }
    m
}

/// NIF da primeira entrada do mapa coa clave dada.
pub fn nif_de(m: &Vec<(String, String)>, k: &String) -> (r: Option<String>)
    ensures
        match r {
            Some(t) => map_get(pairs_view(m@), k@) == Some(t@),
            None => map_get(pairs_view(m@), k@) is None,
        },
{
    let mut i: usize = 0;
    proof {
        assert(pairs_view(m@).subrange(0, m@.len() as int) =~= pairs_view(m@));
    }
    while i < m.len()
        invariant
            i <= m@.len(),
            map_get(pairs_view(m@), k@) == map_get(pairs_view(m@).subrange(i as int, m@.len() as int), k@),
        decreases m.len() - i,
    {
        let ghost rest = pairs_view(m@).subrange(i as int, m@.len() as int);
        assert(rest[0] == (m@[i as int].0@, m@[i as int].1@));
        if m[i].0 == *k {
            return Some(m[i].1.clone());
        }
        assert(rest.drop_first() =~= pairs_view(m@).subrange(i + 1, m@.len() as int));
        i = i + 1;
    }
    None
}

// ───────────────────────── Resolucións ─────────────────────────

/// Contido dunha resolución como secuencias de caracteres.
pub struct ResV {
    pub lote: Seq<char>,
    pub participacion: Seq<char>,
    pub estado_resolucion: Seq<char>,
    pub adxudicatario: Seq<char>,
    pub nif: Seq<char>,
    pub importe_txt: Seq<char>,
    pub data_difusion: Seq<char>,
    pub prazo_execucion: Seq<char>,
    pub recurso: Seq<char>,
}

/// Vista dunha resolución.
pub open spec fn res_view(r: Resolucion) -> ResV {
    ResV {
        lote: r.lote@,
        participacion: r.participacion@,
        estado_resolucion: r.estado_resolucion@,
        adxudicatario: r.adxudicatario@,
        nif: r.nif@,
        importe_txt: r.importe_txt@,
        data_difusion: r.data_difusion@,
        prazo_execucion: r.prazo_execucion@,
        recurso: r.recurso@,
    }
}

/// Vista dunha lista de resolucións.
pub open spec fn res_views(v: Seq<Resolucion>) -> Seq<ResV> {
    v.map_values(|r: Resolucion| res_view(r))
}

/// A cela `k` (baleira se non existe).
pub open spec fn get_cell(cells: Seq<Seq<char>>, k: int) -> Seq<char> {
    if 0 <= k < cells.len() {
        cells[k]
    } else {
        Seq::empty()
    }
}

/// Todas as celas están baleiras.
pub open spec fn all_empty(cells: Seq<Seq<char>>) -> bool {
    forall|k: int| 0 <= k < cells.len() ==> (#[trigger] cells[k]).len() == 0
}

/// Resolución dunha fila (celas limpas) co adxudicatario, o NIF e o importe dados.
pub open spec fn res_de(cells: Seq<Seq<char>>, adx: Seq<char>, nif: Seq<char>, importe: Seq<char>) -> ResV {
    ResV {
        lote: get_cell(cells, 0),
        participacion: get_cell(cells, 1),
        estado_resolucion: get_cell(cells, 2),
        adxudicatario: adx,
        nif: nif,
        importe_txt: importe,
        data_difusion: get_cell(cells, 5),
        prazo_execucion: get_cell(cells, 6),
        recurso: get_cell(cells, 7),
    }
}

/// O NIF do mapa ou baleiro.
pub open spec fn nif_ou_baleiro(o: Option<Seq<char>>) -> Seq<char> {
    match o {
        Some(n) => n,
        None => Seq::empty(),
    }
}

/// Resolucións dunha fila de datos da táboa: ningunha se as celas están
/// baleiras ou non hai estado nin adxudicatario; se a cela do adxudicatario é
/// «Múltiples adxudicatarios», unha por empresa real (co seu NIF e sen importe);
/// se non, unha co NIF do mapa.
pub open spec fn fila_res(row: Seq<char>, nm: NifMap) -> Seq<ResV> {
    let raw = celas_spec(row);
    let cells = limpas(raw);
    if all_empty(cells) || (get_cell(cells, 2).len() == 0 && get_cell(cells, 3).len() == 0) {
        Seq::empty()
    } else {
        let mult = if raw.len() > 3 {
            parse_multiples_adx_spec(raw[3])
        } else {
            Seq::empty()
        };
        if mult.len() == 0 {
            seq![res_de(cells, get_cell(cells, 3), nif_ou_baleiro(map_get(nm, company_key_seq(get_cell(cells, 3)))), get_cell(cells, 4))]
        } else {
            Seq::new(mult.len(), |k: int| res_de(cells, mult[k].0, mult[k].1, Seq::empty()))
        }
    }
}

/// A fila é de cabeceira: a primeira ou con celas `<th`.
pub open spec fn es_cabeceira(t: Seq<Seq<Option<Seq<char>>>>, i: int) -> bool {
    i == 0 || is_infix(str_lowercase(grupo_spec(t, i, 1)), "<th"@)
}

/// Resolucións das primeiras `i` filas da táboa.
pub open spec fn filas_res(t: Seq<Seq<Option<Seq<char>>>>, i: int, nm: NifMap) -> Seq<ResV>
    decreases i,
{
    if i <= 0 {
        Seq::empty()
    } else if es_cabeceira(t, i - 1) {
        filas_res(t, i - 1, nm)
    } else {
        filas_res(t, i - 1, nm) + fila_res(grupo_spec(t, i - 1, 1), nm)
    }
}

/// A primeira táboa tras o título «Datos da resolución» (ata o seu
/// `</table>`, ou ata o final se non se pecha).
pub open spec fn res_table(html: Seq<char>) -> Option<Seq<char>> {
    match find_spec(html, "Datos da resolución"@, 0) {
        None => None,
        Some(start) => {
            let rest = html.subrange(start, html.len() as int);
            match find_spec(rest, "<table"@, 0) {
                None => None,
                Some(ts) => {
                    let tend = match find_spec(rest, "</table>"@, ts) {
                        Some(e) => e + 8,
                        None => rest.len() as int,
                    };
                    Some(rest.subrange(ts, tend))
                },
            }
        },
    }
}

/// Resolucións da táboa «Datos da resolución do procedemento».
pub open spec fn parse_resolucions_spec(html: Seq<char>) -> Seq<ResV> {
    match res_table(html) {
        None => Seq::empty(),
        Some(tab) => {
            let t = capturas_spec(tr_pattern(), tab);
            filas_res(t, t.len() as int, nif_map_spec(html))
        },
    }
}

fn tramo(v: &Vec<char>, a: usize, b: usize) -> (r: Vec<char>)
    requires
        a <= b <= v@.len(),
    ensures
        r@ == v@.subrange(a as int, b as int),
{
    let mut out: Vec<char> = Vec::new();
    let mut i: usize = a;
    while i < b
        invariant
            a <= i <= b <= v@.len(),
            out@ == v@.subrange(a as int, i as int),
        decreases b - i,
    {
        out.push(v[i]);
        i = i + 1;
    }
    out
}

fn todas_baleiras(cells: &Vec<String>) -> (r: bool)
    ensures
        r == all_empty(strs_view(cells@)),
{
    let mut i: usize = 0;
    while i < cells.len()
        invariant
            i <= cells@.len(),
            forall|k: int| 0 <= k < i ==> (#[trigger] strs_view(cells@)[k]).len() == 0,
        decreases cells.len() - i,
    {
        assert(strs_view(cells@)[i as int] == cells@[i as int]@);
        if !cells[i].as_str().is_empty() {
            return false;
        }
        i = i + 1;
    }
    true
}

fn cela(cells: &Vec<String>, k: usize) -> (r: String)
    ensures
        r@ == get_cell(strs_view(cells@), k as int),
{
    if k < cells.len() {
        assert(strs_view(cells@)[k as int] == cells@[k as int]@);
        cells[k].clone()
    } else {
        String::new()
    }
}

fn mk_res(cells: &Vec<String>, adx: String, nif: String, importe: String) -> (r: Resolucion)
    ensures
        res_view(r) == res_de(strs_view(cells@), adx@, nif@, importe@),
{
    Resolucion {
        lote: cela(cells, 0),
        participacion: cela(cells, 1),
        estado_resolucion: cela(cells, 2),
        adxudicatario: adx,
        nif: nif,
        importe_txt: importe,
        data_difusion: cela(cells, 5),
        prazo_execucion: cela(cells, 6),
        recurso: cela(cells, 7),
    }
}

/// Resolucións dunha fila de datos da táboa de resolución, co mapa de NIF do detalle.
pub fn fila_resolucions(row: &str, nm: &Vec<(String, String)>) -> (r: Vec<Resolucion>)
    ensures
        res_views(r@) == fila_res(row@, pairs_view(nm@)),
{
    let raw = celas(row);
    let cells = limpa_celas(&raw);
    let mut out: Vec<Resolucion> = Vec::new();
    proof {
        assert(res_views(out@) =~= Seq::empty());
    }
    if todas_baleiras(&cells) {
        return out;
    }
    let estado = cela(&cells, 2);
    let adx = cela(&cells, 3);
    if estado.as_str().is_empty() && adx.as_str().is_empty() {
        return out;
    }
    let mult = if raw.len() > 3 {
        assert(strs_view(raw@)[3] == raw@[3]@);
        parse_multiples_adx(raw[3].as_str())
    } else {
        let v: Vec<(String, String)> = Vec::new();
        assert(pairs_view(v@) =~= Seq::empty());
        v
    };
    if mult.len() == 0 {
        let k = company_key(adx.as_str());
        let nif = match nif_de(nm, &k) {
            Some(n) => n,
            None => String::new(),
        };
        let imp = cela(&cells, 4);
        let r = mk_res(&cells, adx, nif, imp);
        out.push(r);
        proof {
            assert(res_views(out@) =~= fila_res(row@, pairs_view(nm@)));
        }
        return out;
    }
    let ghost mv = pairs_view(mult@);
    let mut k: usize = 0;
    while k < mult.len()
        invariant
            k <= mult@.len(),
            mv == pairs_view(mult@),
            res_views(out@) =~= Seq::new(k as nat, |q: int| res_de(strs_view(cells@), mv[q].0, mv[q].1, Seq::empty())),
        decreases mult.len() - k,
    {
        let r = mk_res(&cells, mult[k].0.clone(), mult[k].1.clone(), String::new());
        let ghost old_out = out@;
        out.push(r);
        proof {
            assert(res_views(out@) =~= res_views(old_out).push(res_view(r)));
            assert(mv[k as int] == (mult@[k as int].0@, mult@[k as int].1@));
        }
        k = k + 1;
    }
    proof {
        assert(res_views(out@) =~= fila_res(row@, pairs_view(nm@)));
    }
    out
}

/// Analiza a táboa «Datos da resolución do procedemento» (unha fila por lote);
/// o NIF de cada adxudicatario búscase no mapa das táboas ocultas do detalle.
pub fn parse_resolucions(html: &str) -> (r: Vec<Resolucion>)
    ensures
        res_views(r@) == parse_resolucions_spec(html@),
{
    let mut out: Vec<Resolucion> = Vec::new();
    proof {
        assert(res_views(out@) =~= Seq::empty());
    }
    let h = chars_of(html);
    let titulo = chars_of("Datos da resolución");
    let start = match busca(&h, &titulo, 0) {
        Some(p) => p,
        None => return out,
    };
    proof {
        assert(find_spec(h@, titulo@, 0) == Some(start as int));
        assert(start <= h@.len()) by {
            assert(crate::text::occurs_at(h@, titulo@, start as int)) by {
                lemma_find_spec_occurs(h@, titulo@, 0);
            }
        }
    }
    let rest = tramo(&h, start, h.len());
    let t_open = chars_of("<table");
    let ts = match busca(&rest, &t_open, 0) {
        Some(p) => p,
        None => return out,
    };
    proof {
        lemma_find_spec_occurs(rest@, t_open@, 0);
    }
    let t_close = chars_of("</table>");
    let tend = match busca(&rest, &t_close, ts) {
        Some(e) => {
            proof {
                reveal_strlit("</table>");
                lemma_find_spec_occurs(rest@, t_close@, ts as int);
                assert(t_close@.len() == 8);
            }
            e + 8
        },
        None => rest.len(),
    };
    let tab = tramo(&rest, ts, tend);
    let tab_s = string_of(tab.as_slice());
    proof {
        assert(res_table(html@) == Some(tab@));
    }
    let nm = extract_nif_map(html);
    let t = capturas(tr_re(), tab_s.as_str());
    let mut i: usize = 0;
    while i < t.len()
        invariant
            i <= t@.len(),
            res_views(out@) == filas_res(caps_view(t@), i as int, pairs_view(nm@)),
        decreases t.len() - i,
    {
        let row = grupo(&t, i, 1);
        let lower = lowercase_str(row.as_str());
        let lv = chars_of(lower.as_str());
        let th = chars_of("<th");
        if i == 0 || contains_chars(&lv, &th) {
        } else {
            let mut rs = fila_resolucions(row.as_str(), &nm);
            let ghost old_out = out@;
            let ghost rsv = res_views(rs@);
            out.append(&mut rs);
            proof {
                assert(res_views(out@) =~= res_views(old_out) + rsv);
            }
        }
        i = i + 1;
    }
    out
}

/// A posición atopada é unha aparición.
proof fn lemma_find_spec_occurs(hay: Seq<char>, needle: Seq<char>, from: int)
    requires
        find_spec(hay, needle, from) is Some,
    ensures
        crate::text::occurs_at(hay, needle, find_spec(hay, needle, from)->0),
        from <= find_spec(hay, needle, from)->0,
        find_spec(hay, needle, from)->0 + needle.len() <= hay.len(),
    decreases hay.len() + 1 - from,
{
    if from < 0 || from + needle.len() > hay.len() {
    } else if crate::text::occurs_at(hay, needle, from) {
    } else {
        lemma_find_spec_occurs(hay, needle, from + 1);
    }
}

// ───────────────────────── Campos do detalle ─────────────────────────

/// Pares `(etiqueta, valor)` limpos das capturas `dt/dd`.
pub open spec fn dt_pairs(c: Seq<Seq<Option<Seq<char>>>>) -> Seq<(Seq<char>, Seq<char>)> {
    Seq::new(c.len(), |i: int| (clean_text_spec(grupo_spec(c, i, 1)), clean_text_spec(grupo_spec(c, i, 2))))
}

/// Campo ao que corresponde unha etiqueta en minúsculas (a primeira palabra
/// clave que contén, na orde de comprobación; 14 se ningunha).
pub open spec fn clase_dt(l: Seq<char>) -> int {
    if is_infix(l, "referencia"@) { 0 }
    else if is_infix(l, "obxecto"@) { 1 }
    else if is_infix(l, "tipo de tramitación"@) { 2 }
    else if is_infix(l, "tipo de procedemento"@) { 3 }
    else if is_infix(l, "tipo de contrato"@) { 4 }
    else if is_infix(l, "orzamento base"@) { 5 }
    else if is_infix(l, "valor estimado"@) { 6 }
    else if is_infix(l, "lotes"@) { 7 }
    else if is_infix(l, "sistema de contratación"@) { 8 }
    else if is_infix(l, "observaci"@) { 9 }
    else if is_infix(l, "data de difusión"@) { 10 }
    else if is_infix(l, "sara"@) { 11 }
    else if is_infix(l, "centralizada"@) { 12 }
    else if is_infix(l, "lei nacional"@) { 13 }
    else { 14 }
}

/// O par `j` vai ao campo `k`: ten etiqueta, valor e a etiqueta é dese campo.
pub open spec fn par_de(ps: Seq<(Seq<char>, Seq<char>)>, j: int, k: int) -> bool {
    ps[j].0.len() > 0 && ps[j].1.len() > 0 && clase_dt(str_lowercase(ps[j].0)) == k
}

/// Valor do campo `k` tras os primeiros `i` pares: o primeiro valor non baleiro
/// dunha etiqueta dese campo.
pub open spec fn campo(ps: Seq<(Seq<char>, Seq<char>)>, k: int, i: int) -> Seq<char>
    decreases i,
{
    if i <= 0 {
        Seq::empty()
    } else {
        let prev = campo(ps, k, i - 1);
        if prev.len() > 0 {
            prev
        } else if par_de(ps, i - 1, k) {
            ps[i - 1].1
        } else {
            prev
        }
    }
}

/// Etiquetas sen campo tras os primeiros `i` pares, co primeiro valor de cada
/// etiqueta, na orde en que aparecen.
pub open spec fn extra_spec(ps: Seq<(Seq<char>, Seq<char>)>, i: int) -> Seq<(Seq<char>, Seq<char>)>
    decreases i,
{
    if i <= 0 {
        Seq::empty()
    } else {
        let e = extra_spec(ps, i - 1);
        if par_de(ps, i - 1, 14) && !map_has(e, ps[i - 1].0) {
            e.push(ps[i - 1])
        } else {
            e
        }
    }
}

/// Pares ordenados pola etiqueta (orde de `String`, por puntos de código).
pub open spec fn etiquetas_ordenadas(e: Seq<(Seq<char>, Seq<char>)>) -> bool {
    forall|a: int, b: int| 0 <= a < b < e.len() ==> lex_le(#[trigger] e[a].0, #[trigger] e[b].0)
}

/// Os pares `extra` do detalle: os de `extra_spec`, ordenados pola etiqueta.
pub open spec fn extra_ok(e: Seq<(Seq<char>, Seq<char>)>, ps: Seq<(Seq<char>, Seq<char>)>, n: int) -> bool {
    &&& etiquetas_ordenadas(e)
    &&& exists|p: Seq<int>, q: Seq<int>| #[trigger] perm_of(e, extra_spec(ps, n), p, q)
}

/// Etiqueta dun par, como caracteres.
fn clave_par(x: &(String, String)) -> (r: Vec<char>)
    ensures
        r@ == x.0@,
{
    chars_of(x.0.as_str())
}

/// Ordena os pares pola etiqueta (os de etiqueta igual conservan a súa orde).
fn ordena_pares(v: Vec<(String, String)>) -> (r: Vec<(String, String)>)
    ensures
        etiquetas_ordenadas(pairs_view(r@)),
        exists|p: Seq<int>, q: Seq<int>| #[trigger] perm_of(pairs_view(r@), pairs_view(v@), p, q),
{
    let ghost orig = v@;
    let mut src = v;
    let mut out: Vec<(String, String)> = Vec::new();
    let ghost mut p: Seq<int> = Seq::empty();
    let ghost mut q: Seq<int> = Seq::new(orig.len(), |i: int| 0);
    while src.len() > 0
        invariant
            src@ == orig.take(src@.len() as int),
            src@.len() <= orig.len(),
            perm_tail(out@, orig, src@.len() as int, p, q),
            etiquetas_ordenadas(pairs_view(out@)),
        decreases src.len(),
    {
        let ghost m = src@.len() as int;
        let x = src.pop().unwrap();
        proof {
            assert(x == orig[m - 1]);
            assert(src@ =~= orig.take(m - 1));
        }
        let kx = clave_par(&x);
        let mut pos: usize = 0;
        while pos < out.len() && !lex_le_exec(&kx, &clave_par(&out[pos]))
            invariant
                pos <= out@.len(),
                kx@ == x.0@,
                forall|k: int| 0 <= k < pos ==> lex_le((#[trigger] out@[k]).0@, x.0@),
            decreases out.len() - pos,
        {
            proof {
                lemma_lex_total(x.0@, out@[pos as int].0@);
            }
            pos = pos + 1;
        }
        let ghost old_out = out@;
        proof {
            let pq = lemma_perm_tail_insert(old_out, orig, m, p, q, pos as int);
            p = pq.0;
            q = pq.1;
        }
        out.insert(pos, x);
        proof {
            assert(out@ == old_out.insert(pos as int, orig[m - 1]));
            let w = pairs_view(out@);
            let ow = pairs_view(old_out);
            assert forall|a: int, b: int| 0 <= a < b < w.len() implies lex_le(#[trigger] w[a].0, #[trigger] w[b].0) by {
                if b < pos {
                    assert(w[a] == ow[a] && w[b] == ow[b]);
                } else if a > pos {
                    assert(w[a] == ow[a - 1] && w[b] == ow[b - 1]);
                } else if a == pos {
                    assert(w[b] == ow[b - 1]);
                    if b - 1 > pos {
                        assert(lex_le(ow[pos as int].0, ow[b - 1].0));
                    } else {
                        lemma_lex_refl(ow[pos as int].0);
                    }
                    lemma_lex_trans(x.0@, ow[pos as int].0, ow[b - 1].0);
                } else if b == pos {
                    assert(w[a] == ow[a]);
                    assert(lex_le(old_out[a].0@, x.0@));
                } else {
                    assert(w[a] == ow[a] && w[b] == ow[b - 1]);
                    assert(lex_le(old_out[a].0@, x.0@));
                    lemma_lex_trans(ow[a].0, x.0@, ow[pos as int].0);
                    if b - 1 > pos {
                        lemma_lex_trans(ow[a].0, ow[pos as int].0, ow[b - 1].0);
                    }
                }
            }
        }
    }
    proof {
        lemma_perm_tail_done(out@, orig, p, q);
        let w = pairs_view(out@);
        let ov = pairs_view(v@);
        assert forall|k: int| 0 <= k < w.len() implies 0 <= #[trigger] p[k] < ov.len() && w[k] == ov[p[k]] by {
            assert(out@[k] == orig[p[k]]);
        }
        assert(perm_of(w, ov, p, q));
    }
    out
}

/// Ligazón pública á resolución dun contrato.
pub open spec fn enlace_spec(id: Seq<char>) -> Seq<char> {
    "https://www.contratosdegalicia.gal/licitacion?N="@ + id
}

/// O detalle corresponde aos pares `dt/dd` do HTML.
pub open spec fn detail_ok(id: Seq<char>, html: Seq<char>, d: ContractDetail) -> bool {
    let ps = dt_pairs(capturas_spec(dt_dd_pattern(), html));
    let n = ps.len() as int;
    &&& d.contract_id@ == id
    &&& d.enlace_resolucion@ == enlace_spec(id)
    &&& d.referencia@ == campo(ps, 0, n)
    &&& d.obxecto@ == campo(ps, 1, n)
    &&& d.tipo_tramitacion@ == campo(ps, 2, n)
    &&& d.tipo_procedemento@ == campo(ps, 3, n)
    &&& d.tipo_contrato@ == campo(ps, 4, n)
    &&& d.orzamento_base@ == campo(ps, 5, n)
    &&& d.valor_estimado@ == campo(ps, 6, n)
    &&& d.num_lotes@ == campo(ps, 7, n)
    &&& d.sistema_contratacion@ == campo(ps, 8, n)
    &&& d.observacions@ == campo(ps, 9, n)
    &&& d.data_difusion@ == campo(ps, 10, n)
    &&& d.sara@ == campo(ps, 11, n)
    &&& d.centralizada@ == campo(ps, 12, n)
    &&& d.lei_aplicacion@ == campo(ps, 13, n)
    &&& extra_ok(pairs_view(d.extra@), ps, n)
}

fn kw(l: &Vec<char>, k: &str) -> (r: bool)
    ensures
        r == is_infix(l@, k@),
{
    let kv = chars_of(k);
    contains_chars(l, &kv)
}

fn clase_exec(label: &String) -> (r: usize)
    ensures
        r == clase_dt(str_lowercase(label@)),
{
    let lo = lowercase_str(label.as_str());
    let l = chars_of(lo.as_str());
    if kw(&l, "referencia") { 0 }
    else if kw(&l, "obxecto") { 1 }
    else if kw(&l, "tipo de tramitación") { 2 }
    else if kw(&l, "tipo de procedemento") { 3 }
    else if kw(&l, "tipo de contrato") { 4 }
    else if kw(&l, "orzamento base") { 5 }
    else if kw(&l, "valor estimado") { 6 }
    else if kw(&l, "lotes") { 7 }
    else if kw(&l, "sistema de contratación") { 8 }
    else if kw(&l, "observaci") { 9 }
    else if kw(&l, "data de difusión") { 10 }
    else if kw(&l, "sara") { 11 }
    else if kw(&l, "centralizada") { 12 }
    else if kw(&l, "lei nacional") { 13 }
    else { 14 }
}

fn fija(f: &mut String, v: &String)
    ensures
        final(f)@ == (if old(f)@.len() == 0 && v@.len() > 0 { v@ } else { old(f)@ }),
{
    if f.as_str().is_empty() && !v.as_str().is_empty() {
        *f = v.clone();
    }
}

/// Campos do detalle a partir das capturas `dt/dd` (grupo 1 a etiqueta, grupo 2
/// o valor): cada campo co primeiro valor non baleiro dunha etiqueta que contén
/// a súa palabra clave; as demais etiquetas, en `extra`, co primeiro valor de
/// cada etiqueta e ordenadas pola etiqueta.
pub fn detail_de_capturas(id: &str, c: &Vec<Vec<Option<String>>>) -> (d: ContractDetail)
    ensures
        d.contract_id@ == id@,
        d.enlace_resolucion@ == enlace_spec(id@),
        ({
            let ps = dt_pairs(caps_view(c@));
            let n = ps.len() as int;
            &&& d.referencia@ == campo(ps, 0, n)
            &&& d.obxecto@ == campo(ps, 1, n)
            &&& d.tipo_tramitacion@ == campo(ps, 2, n)
            &&& d.tipo_procedemento@ == campo(ps, 3, n)
            &&& d.tipo_contrato@ == campo(ps, 4, n)
            &&& d.orzamento_base@ == campo(ps, 5, n)
            &&& d.valor_estimado@ == campo(ps, 6, n)
            &&& d.num_lotes@ == campo(ps, 7, n)
            &&& d.sistema_contratacion@ == campo(ps, 8, n)
            &&& d.observacions@ == campo(ps, 9, n)
            &&& d.data_difusion@ == campo(ps, 10, n)
            &&& d.sara@ == campo(ps, 11, n)
            &&& d.centralizada@ == campo(ps, 12, n)
            &&& d.lei_aplicacion@ == campo(ps, 13, n)
            &&& extra_ok(pairs_view(d.extra@), ps, n)
        }),
{
    let ghost ps = dt_pairs(caps_view(c@));
    let mut f0 = String::new();
    let mut f1 = String::new();
    let mut f2 = String::new();
    let mut f3 = String::new();
    let mut f4 = String::new();
    let mut f5 = String::new();
    let mut f6 = String::new();
    let mut f7 = String::new();
    let mut f8 = String::new();
    let mut f9 = String::new();
    let mut f10 = String::new();
    let mut f11 = String::new();
    let mut f12 = String::new();
    let mut f13 = String::new();
    let mut extra: Vec<(String, String)> = Vec::new();
    assert(pairs_view(extra@) =~= Seq::empty());
    let mut i: usize = 0;
    while i < c.len()
        invariant
            i <= c@.len(),
            ps == dt_pairs(caps_view(c@)),
            f0@ == campo(ps, 0, i as int),
            f1@ == campo(ps, 1, i as int),
            f2@ == campo(ps, 2, i as int),
            f3@ == campo(ps, 3, i as int),
            f4@ == campo(ps, 4, i as int),
            f5@ == campo(ps, 5, i as int),
            f6@ == campo(ps, 6, i as int),
            f7@ == campo(ps, 7, i as int),
            f8@ == campo(ps, 8, i as int),
            f9@ == campo(ps, 9, i as int),
            f10@ == campo(ps, 10, i as int),
            f11@ == campo(ps, 11, i as int),
            f12@ == campo(ps, 12, i as int),
            f13@ == campo(ps, 13, i as int),
            pairs_view(extra@) == extra_spec(ps, i as int),
        decreases c.len() - i,
    {
        let g1 = grupo(c, i, 1);
        let g2 = grupo(c, i, 2);
        let label = clean_text(g1.as_str());
        let value = clean_text(g2.as_str());
        assert(ps[i as int] == (label@, value@));
        if !label.as_str().is_empty() {
            let k = clase_exec(&label);
            if k == 0 { fija(&mut f0, &value); }
            else if k == 1 { fija(&mut f1, &value); }
            else if k == 2 { fija(&mut f2, &value); }
            else if k == 3 { fija(&mut f3, &value); }
            else if k == 4 { fija(&mut f4, &value); }
            else if k == 5 { fija(&mut f5, &value); }
            else if k == 6 { fija(&mut f6, &value); }
            else if k == 7 { fija(&mut f7, &value); }
            else if k == 8 { fija(&mut f8, &value); }
            else if k == 9 { fija(&mut f9, &value); }
            else if k == 10 { fija(&mut f10, &value); }
            else if k == 11 { fija(&mut f11, &value); }
            else if k == 12 { fija(&mut f12, &value); }
            else if k == 13 { fija(&mut f13, &value); }
            else if !value.as_str().is_empty() && !map_has_exec(&extra, &label) {
                let ghost old_e = extra@;
                extra.push((label, value));
                assert(pairs_view(extra@) =~= pairs_view(old_e).push(ps[i as int]));
            }
        }
        i = i + 1;
    }
    let mut enlace = chars_of("https://www.contratosdegalicia.gal/licitacion?N=");
    let mut idv = chars_of(id);
    enlace.append(&mut idv);
    ContractDetail {
        contract_id: id.to_owned(),
        referencia: f0,
        obxecto: f1,
        tipo_tramitacion: f2,
        tipo_procedemento: f3,
        tipo_contrato: f4,
        orzamento_base: f5,
        valor_estimado: f6,
        num_lotes: f7,
        sistema_contratacion: f8,
        observacions: f9,
        data_difusion: f10,
        sara: f11,
        centralizada: f12,
        lei_aplicacion: f13,
        enlace_resolucion: string_of(enlace.as_slice()),
        extra: ordena_pares(extra),
    }
}

/// Analiza a páxina de detalle dun contrato: os campos `dt/dd` e as resolucións.
pub fn parse_detail(id: &str, html: &str) -> (r: (ContractDetail, Vec<Resolucion>))
    ensures
        detail_ok(id@, html@, r.0),
        res_views(r.1@) == parse_resolucions_spec(html@),
{
    let c = capturas(dt_dd_re(), html);
    let d = detail_de_capturas(id, &c);
    let res = parse_resolucions(html);
    (d, res)
}

// ───────────────────────── UTE adxudicatarias ─────────────────────────

/// Contido dunha UTE como secuencias de caracteres.
pub struct UteV {
    pub nome: Seq<char>,
    pub nif: Seq<char>,
    pub membros: Seq<(Seq<char>, Seq<char>)>,
}

/// Vista dunha UTE (membros como pares `(cif, nome)`).
pub open spec fn ute_view(u: Ute) -> UteV {
    UteV {
        nome: u.nome@,
        nif: u.nif@,
        membros: u.membros@.map_values(|m: UteMembro| (m.cif@, m.nome@)),
    }
}

/// Vista dunha lista de UTE.
pub open spec fn ute_views(v: Seq<Ute>) -> Seq<UteV> {
    v.map_values(|u: Ute| ute_view(u))
}

/// A clave é dalgún adxudicatario gañador (clave non baleira).
pub open spec fn es_ganador(rs: Seq<Resolucion>, k: Seq<char>) -> bool {
    k.len() > 0 && exists|i: int| 0 <= i < rs.len() && company_key_seq((#[trigger] rs[i]).adxudicatario@) == k
}

/// Membros `(cif, nome)` dos primeiros `i` elementos da lista aniñada: os que
/// teñen a forma `CIF - NOME` cun CIF válido (normalizado) e o nome recortado.
pub open spec fn membros_spec(l: Seq<Seq<Option<Seq<char>>>>, i: int) -> Seq<(Seq<char>, Seq<char>)>
    decreases i,
{
    if i <= 0 {
        Seq::empty()
    } else {
        let acc = membros_spec(l, i - 1);
        let txt = clean_text_spec(grupo_spec(l, i - 1, 1));
        match find_spec(txt, " - "@, 0) {
            Some(p) => {
                let cif = trim(txt.subrange(0, p));
                if is_nif(cif) {
                    acc.push((nif_seq(cif), trim(txt.subrange(p + 3, txt.len() as int))))
                } else {
                    acc
                }
            },
            None => acc,
        }
    }
}

/// Nome e lista aniñada dunha cela de licitador: o nome é o primeiro `<li>`
/// antes do segundo `<ul>`, e a lista o contido dese `<ul>` (ata o seu `</ul>`
/// ou o final). `None` se non hai `<ul>` aniñado (non é unha UTE).
pub open spec fn ute_partes(nome_raw: Seq<char>) -> Option<(Seq<char>, Seq<char>)> {
    match find_spec(nome_raw, "<ul"@, 0) {
        None => None,
        Some(first_ul) => match find_spec(nome_raw, "<ul"@, first_ul + 3) {
            None => None,
            Some(inner_ul) => match find_spec(nome_raw, ">"@, inner_ul) {
                None => None,
                Some(gt) => {
                    let open_end = gt + 1;
                    let close = match find_spec(nome_raw, "</ul>"@, open_end) {
                        Some(e) => e,
                        None => nome_raw.len() as int,
                    };
                    let li0 = capturas_spec(li_pattern(), nome_raw.subrange(0, inner_ul));
                    let nome = if li0.len() > 0 {
                        clean_text_spec(grupo_spec(li0, 0, 1))
                    } else {
                        Seq::empty()
                    };
                    Some((nome, nome_raw.subrange(open_end, close)))
                },
            },
        },
    }
}

/// A UTE adxudicataria dunha fila de licitadores, se a hai: a fila ten polo
/// menos tres celas, a terceira ten un `<ul>` aniñado, o nome da UTE casa cun
/// adxudicatario e ten algún membro válido.
pub open spec fn ute_de_fila_spec(row: Seq<char>, rs: Seq<Resolucion>) -> Option<UteV> {
    let raw = celas_spec(row);
    if raw.len() < 3 {
        None
    } else {
        match ute_partes(raw[2]) {
            None => None,
            Some((nome, inner)) => {
                if nome.len() == 0 || !es_ganador(rs, company_key_seq(nome)) {
                    None
                } else {
                    let l = capturas_spec(li_pattern(), inner);
                    let ms = membros_spec(l, l.len() as int);
                    if ms.len() == 0 {
                        None
                    } else {
                        Some(UteV { nome: nome, nif: clean_text_spec(raw[1]), membros: ms })
                    }
                }
            },
        }
    }
}

/// UTE adxudicatarias das primeiras `i` filas de licitadores.
pub open spec fn utes_upto(f: Seq<Seq<Option<Seq<char>>>>, i: int, rs: Seq<Resolucion>) -> Seq<UteV>
    decreases i,
{
    if i <= 0 {
        Seq::empty()
    } else {
        match ute_de_fila_spec(grupo_spec(f, i - 1, 1), rs) {
            Some(u) => utes_upto(f, i - 1, rs).push(u),
            None => utes_upto(f, i - 1, rs),
        }
    }
}

/// UTE adxudicatarias do popup de licitadores do detalle.
pub open spec fn parse_utes_spec(html: Seq<char>, rs: Seq<Resolucion>) -> Seq<UteV> {
    let f = capturas_spec(filaslic_pattern(), html);
    utes_upto(f, f.len() as int, rs)
}

fn ganador(rs: &[Resolucion], k: &String) -> (r: bool)
    ensures
        r == es_ganador(rs@, k@),
{
    if k.as_str().is_empty() {
        return false;
    }
    let mut i: usize = 0;
    while i < rs.len()
        invariant
            i <= rs@.len(),
            k@.len() > 0,
            forall|j: int| 0 <= j < i ==> company_key_seq((#[trigger] rs@[j]).adxudicatario@) != k@,
        decreases rs.len() - i,
    {
        let ck = company_key(rs[i].adxudicatario.as_str());
        if ck == *k {
            return true;
        }
        i = i + 1;
    }
    false
}

/// Membros `(cif, nome)` dos elementos capturados da lista aniñada dunha UTE.
pub fn membros_de_capturas(l: &Vec<Vec<Option<String>>>) -> (r: Vec<UteMembro>)
    ensures
        r@.map_values(|m: UteMembro| (m.cif@, m.nome@)) == membros_spec(caps_view(l@), l@.len() as int),
{
    let mut out: Vec<UteMembro> = Vec::new();
    let mut i: usize = 0;
    assert(out@.map_values(|m: UteMembro| (m.cif@, m.nome@)) =~= Seq::empty());
    while i < l.len()
        invariant
            i <= l@.len(),
            out@.map_values(|m: UteMembro| (m.cif@, m.nome@)) == membros_spec(caps_view(l@), i as int),
        decreases l.len() - i,
    {
        let g = grupo(l, i, 1);
        let txt = clean_text(g.as_str());
        let tv = chars_of(txt.as_str());
        let tn = tv.len();
        let sep = chars_of(" - ");
        match busca(&tv, &sep, 0) {
            Some(p) => {
                proof {
                    reveal_strlit(" - ");
                    assert(sep@.len() == 3);
                    lemma_find_spec_occurs(tv@, sep@, 0);
                    assert(p + 3 <= tv@.len());
                }
                let cv = tramo(&tv, 0, p);
                let cs = string_of(cv.as_slice());
                let cif = trim_str(cs.as_str());
                if es_nif(cif.as_str()) {
                    let nv = tramo(&tv, p + 3, tn);
                    let ns = string_of(nv.as_slice());
                    let nome = trim_str(ns.as_str());
                    let m = UteMembro { cif: normalize_nif(cif.as_str()), nome };
                    let ghost old_out = out@;
                    out.push(m);
                    assert(out@.map_values(|m: UteMembro| (m.cif@, m.nome@)) =~= old_out.map_values(
                        |m: UteMembro| (m.cif@, m.nome@),
                    ).push((m.cif@, m.nome@)));
                }
            },
            None => {},
        }
        i = i + 1;
    }
    out
}

fn partes_exec(nome_raw: &String) -> (r: Option<(String, String)>)
    ensures
        match r {
            Some((a, b)) => ute_partes(nome_raw@) == Some((a@, b@)),
            None => ute_partes(nome_raw@) is None,
        },
{
    let v = chars_of(nome_raw.as_str());
    let vn = v.len();
    let ul = chars_of("<ul");
    let gt = chars_of(">");
    let cul = chars_of("</ul>");
    proof {
        reveal_strlit("<ul");
        reveal_strlit(">");
        assert(ul@.len() == 3);
        assert(gt@.len() == 1);
    }
    let first_ul = match busca(&v, &ul, 0) {
        Some(p) => p,
        None => return None,
    };
    proof {
        lemma_find_spec_occurs(v@, ul@, 0);
        assert(first_ul + 3 <= v@.len());
    }
    let inner_ul = match busca(&v, &ul, first_ul + 3) {
        Some(p) => p,
        None => return None,
    };
    proof {
        lemma_find_spec_occurs(v@, ul@, first_ul + 3);
    }
    let g = match busca(&v, &gt, inner_ul) {
        Some(p) => p,
        None => return None,
    };
    proof {
        lemma_find_spec_occurs(v@, gt@, inner_ul as int);
        assert(g + 1 <= v@.len());
    }
    let open_end = g + 1;
    let close = match busca(&v, &cul, open_end) {
        Some(e) => {
            proof {
                lemma_find_spec_occurs(v@, cul@, open_end as int);
            }
            e
        },
        None => v.len(),
    };
    let pre = tramo(&v, 0, inner_ul);
    let pre_s = string_of(pre.as_slice());
    let li0 = capturas(li_re(), pre_s.as_str());
    let nome = if li0.len() > 0 {
        let g1 = grupo(&li0, 0, 1);
        clean_text(g1.as_str())
    } else {
        String::new()
    };
    let inner = tramo(&v, open_end, close);
    Some((nome, string_of(inner.as_slice())))
}

/// A UTE adxudicataria dunha fila de licitadores, se a hai.
pub fn ute_de_fila(row: &str, rs: &[Resolucion]) -> (r: Option<Ute>)
    ensures
        match r {
            Some(u) => ute_de_fila_spec(row@, rs@) == Some(ute_view(u)),
            None => ute_de_fila_spec(row@, rs@) is None,
        },
{
    let raw = celas(row);
    if raw.len() < 3 {
        return None;
    }
    assert(strs_view(raw@)[2] == raw@[2]@);
    assert(strs_view(raw@)[1] == raw@[1]@);
    let (nome, inner) = match partes_exec(&raw[2]) {
        Some(p) => p,
        None => return None,
    };
    if nome.as_str().is_empty() {
        return None;
    }
    let k = company_key(nome.as_str());
    if !ganador(rs, &k) {
        return None;
    }
    let l = capturas(li_re(), inner.as_str());
    let ms = membros_de_capturas(&l);
    if ms.len() == 0 {
        return None;
    }
    let nif = clean_text(raw[1].as_str());
    Some(Ute { nome, nif, membros: ms })
}

/// Extrae as UTE adxudicatarias do popup de licitadores: cada licitador é un
/// `<li>` e unha UTE ten unha lista aniñada co `CIF - NOME` de cada membro.
/// Só se devolven as UTE cuxo nome coincide cun adxudicatario do contrato.
pub fn parse_utes(html: &str, resolucions: &[Resolucion]) -> (r: Vec<Ute>)
    ensures
        ute_views(r@) == parse_utes_spec(html@, resolucions@),
{
    let f = capturas(filaslic_re(), html);
    let mut out: Vec<Ute> = Vec::new();
    assert(ute_views(out@) =~= Seq::empty());
    let mut i: usize = 0;
    while i < f.len()
        invariant
            i <= f@.len(),
            ute_views(out@) == utes_upto(caps_view(f@), i as int, resolucions@),
        decreases f.len() - i,
    {
        let row = grupo(&f, i, 1);
        match ute_de_fila(row.as_str(), resolucions) {
            Some(u) => {
                let ghost old_out = out@;
                let ghost uv = ute_view(u);
                out.push(u);
                assert(ute_views(out@) =~= ute_views(old_out).push(uv));
            },
            None => {},
        }
        i = i + 1;
    }
    out
}

// ───────────────────────── Lei das UTE extraídas ─────────────────────────

/// Un membro extraído: o seu CIF é a forma normalizada dun NIF/CIF/NIE válido.
pub open spec fn membro_valido(m: (Seq<char>, Seq<char>)) -> bool {
    exists|c: Seq<char>| is_nif(c) && #[trigger] nif_seq(c) == m.0
}

/// Unha UTE extraída: nome non baleiro que casa (por clave) cun adxudicatario
/// do contrato, e polo menos un membro, todos con CIF válido normalizado.
pub open spec fn ute_valida(rs: Seq<Resolucion>, u: UteV) -> bool {
    &&& u.nome.len() > 0
    &&& es_ganador(rs, company_key_seq(u.nome))
    &&& u.membros.len() > 0
    &&& forall|j: int| 0 <= j < u.membros.len() ==> membro_valido(#[trigger] u.membros[j])
}

proof fn lemma_membros_validos(l: Seq<Seq<Option<Seq<char>>>>, i: int)
    ensures
        forall|j: int| 0 <= j < membros_spec(l, i).len() ==> membro_valido(#[trigger] membros_spec(l, i)[j]),
    decreases i,
{
    if i > 0 {
        lemma_membros_validos(l, i - 1);
        let acc = membros_spec(l, i - 1);
        let txt = clean_text_spec(grupo_spec(l, i - 1, 1));
        match find_spec(txt, " - "@, 0) {
            Some(p) => {
                let cif = trim(txt.subrange(0, p));
                if is_nif(cif) {
                    let r = membros_spec(l, i);
                    assert forall|j: int| 0 <= j < r.len() implies membro_valido(#[trigger] r[j]) by {
                        if j < acc.len() {
                            assert(r[j] == acc[j]);
                        } else {
                            assert(r[j].0 == nif_seq(cif));
                        }
                    }
                }
            },
            None => {},
        }
    }
}

proof fn lemma_ute_de_fila_valida(row: Seq<char>, rs: Seq<Resolucion>)
    ensures
        ute_de_fila_spec(row, rs) matches Some(u) ==> ute_valida(rs, u),
{
    let raw = celas_spec(row);
    if raw.len() >= 3 {
        match ute_partes(raw[2]) {
            Some((nome, inner)) => {
                let l = capturas_spec(li_pattern(), inner);
                lemma_membros_validos(l, l.len() as int);
            },
            None => {},
        }
    }
}

proof fn lemma_utes_upto_validas(f: Seq<Seq<Option<Seq<char>>>>, i: int, rs: Seq<Resolucion>)
    ensures
        forall|k: int| 0 <= k < utes_upto(f, i, rs).len() ==> ute_valida(rs, #[trigger] utes_upto(f, i, rs)[k]),
    decreases i,
{
    if i > 0 {
        lemma_utes_upto_validas(f, i - 1, rs);
        lemma_ute_de_fila_valida(grupo_spec(f, i - 1, 1), rs);
        let acc = utes_upto(f, i - 1, rs);
        let r = utes_upto(f, i, rs);
        assert forall|k: int| 0 <= k < r.len() implies ute_valida(rs, #[trigger] r[k]) by {
            if k < acc.len() {
                assert(r[k] == acc[k]);
            }
        }
    }
}

/// Toda UTE que extrae `parse_utes` ten un nome non baleiro que casa (pola
/// clave de empresa) cun adxudicatario do contrato e polo menos un membro, e
/// cada membro leva un NIF/CIF/NIE válido normalizado. Así, unha UTE que non
/// gañou nunca se devolve, e sen ningún adxudicatario de clave non baleira non
/// se devolve ningunha.
pub proof fn lemma_parse_utes_validas(html: Seq<char>, rs: Seq<Resolucion>)
    ensures
        forall|k: int| 0 <= k < parse_utes_spec(html, rs).len() ==> ute_valida(rs, #[trigger] parse_utes_spec(html, rs)[k]),
        (forall|i: int| 0 <= i < rs.len() ==> (#[trigger] company_key_seq(rs[i].adxudicatario@)).len() == 0)
            ==> parse_utes_spec(html, rs).len() == 0,
{
    let f = capturas_spec(filaslic_pattern(), html);
    lemma_utes_upto_validas(f, f.len() as int, rs);
    let r = parse_utes_spec(html, rs);
    if (forall|i: int| 0 <= i < rs.len() ==> (#[trigger] company_key_seq(rs[i].adxudicatario@)).len() == 0) && r.len() > 0 {
        assert(ute_valida(rs, r[0]));
        let k = company_key_seq(r[0].nome);
        let i = choose|i: int| 0 <= i < rs.len() && company_key_seq((#[trigger] rs[i]).adxudicatario@) == k;
        assert(company_key_seq(rs[i].adxudicatario@).len() == 0);
    }
}

// ───────────────────────── Lei das resolucións ─────────────────────────

/// Cela limpa `k` da fila (baleira se a fila ten menos celas).
pub open spec fn cela_limpa(row: Seq<char>, k: int) -> Seq<char> {
    if 0 <= k < celas_spec(row).len() {
        clean_text_spec(celas_spec(row)[k])
    } else {
        Seq::empty()
    }
}

/// A resolución le da fila: o lote é a primeira cela, a participación a
/// segunda, o estado a terceira, a data de difusión a sexta, o prazo de
/// execución a sétima e o recurso a oitava (todas limpas).
pub open spec fn resolucion_da_fila(r: ResV, row: Seq<char>) -> bool {
    &&& r.lote == cela_limpa(row, 0)
    &&& r.participacion == cela_limpa(row, 1)
    &&& r.estado_resolucion == cela_limpa(row, 2)
    &&& r.data_difusion == cela_limpa(row, 5)
    &&& r.prazo_execucion == cela_limpa(row, 6)
    &&& r.recurso == cela_limpa(row, 7)
}

/// Cada resolución dunha fila de datos leva o lote, a participación, o estado e
/// as datas das celas correspondentes desa fila.
pub proof fn lemma_fila_res_celas(row: Seq<char>, nm: NifMap)
    ensures
        forall|k: int| 0 <= k < fila_res(row, nm).len() ==> resolucion_da_fila(#[trigger] fila_res(row, nm)[k], row),
{
    let raw = celas_spec(row);
    let cells = limpas(raw);
    assert forall|j: int| 0 <= j < 8 implies #[trigger] get_cell(cells, j) == cela_limpa(row, j) by {
        if 0 <= j < raw.len() {
            assert(cells[j] == clean_text_spec(raw[j]));
        }
    }
    assert(get_cell(cells, 0) == cela_limpa(row, 0));
    assert(get_cell(cells, 1) == cela_limpa(row, 1));
    assert(get_cell(cells, 2) == cela_limpa(row, 2));
    assert(get_cell(cells, 5) == cela_limpa(row, 5));
    assert(get_cell(cells, 6) == cela_limpa(row, 6));
    assert(get_cell(cells, 7) == cela_limpa(row, 7));
}

proof fn lemma_filas_res_celas(t: Seq<Seq<Option<Seq<char>>>>, i: int, nm: NifMap)
    ensures
        forall|k: int| 0 <= k < filas_res(t, i, nm).len() ==> exists|j: int|
            0 <= j < i && !es_cabeceira(t, j) && resolucion_da_fila(#[trigger] filas_res(t, i, nm)[k], grupo_spec(t, j, 1)),
    decreases i,
{
    if i > 0 {
        lemma_filas_res_celas(t, i - 1, nm);
        let a = filas_res(t, i - 1, nm);
        let r = filas_res(t, i, nm);
        if !es_cabeceira(t, i - 1) {
            let row = grupo_spec(t, i - 1, 1);
            lemma_fila_res_celas(row, nm);
            let b = fila_res(row, nm);
            assert forall|k: int| 0 <= k < r.len() implies exists|j: int|
                0 <= j < i && !es_cabeceira(t, j) && resolucion_da_fila(#[trigger] r[k], grupo_spec(t, j, 1)) by {
                if k < a.len() {
                    assert(r[k] == a[k]);
                    let j = choose|j: int| 0 <= j < i - 1 && !es_cabeceira(t, j) && resolucion_da_fila(a[k], grupo_spec(t, j, 1));
                } else {
                    assert(r[k] == b[k - a.len()]);
                    assert(resolucion_da_fila(b[k - a.len()], row));
                }
            }
        } else {
            assert forall|k: int| 0 <= k < r.len() implies exists|j: int|
                0 <= j < i && !es_cabeceira(t, j) && resolucion_da_fila(#[trigger] r[k], grupo_spec(t, j, 1)) by {
                let j = choose|j: int| 0 <= j < i - 1 && !es_cabeceira(t, j) && resolucion_da_fila(a[k], grupo_spec(t, j, 1));
            }
        }
    }
}

/// Cada resolución que extrae `parse_resolucions` vén dunha fila de datos (non
/// de cabeceira) da táboa «Datos da resolución»: o seu lote é a primeira cela
/// desa fila, a participación a segunda, o estado a terceira e as datas, o
/// prazo e o recurso as celas sexta a oitava.
pub proof fn lemma_resolucions_celas(html: Seq<char>)
    ensures
        forall|k: int| 0 <= k < parse_resolucions_spec(html).len() ==> (exists|tab: Seq<char>, j: int|
            res_table(html) == Some(tab) && 0 <= j < capturas_spec(tr_pattern(), tab).len() && !es_cabeceira(
                capturas_spec(tr_pattern(), tab),
                j,
            ) && resolucion_da_fila(
                #[trigger] parse_resolucions_spec(html)[k],
                grupo_spec(capturas_spec(tr_pattern(), tab), j, 1),
            )),
{
    match res_table(html) {
        None => {},
        Some(tab) => {
            let t = capturas_spec(tr_pattern(), tab);
            lemma_filas_res_celas(t, t.len() as int, nif_map_spec(html));
            let r = parse_resolucions_spec(html);
            assert forall|k: int| 0 <= k < r.len() implies (exists|tab2: Seq<char>, j: int|
                res_table(html) == Some(tab2) && 0 <= j < capturas_spec(tr_pattern(), tab2).len() && !es_cabeceira(
                    capturas_spec(tr_pattern(), tab2),
                    j,
                ) && resolucion_da_fila(#[trigger] r[k], grupo_spec(capturas_spec(tr_pattern(), tab2), j, 1))) by {
                let j = choose|j: int|
                    0 <= j < t.len() && !es_cabeceira(t, j) && resolucion_da_fila(r[k], grupo_spec(t, j, 1));
                assert(res_table(html) == Some(tab));
            }
        },
    }
}

// ───────────────────────── Lei dos campos do detalle ─────────────────────────

/// Primeiro valor non baleiro, tras os primeiros `i` pares, dunha etiqueta non
/// baleira que en minúsculas cumpre `eti`.
pub open spec fn primeiro_valor(ps: Seq<(Seq<char>, Seq<char>)>, eti: spec_fn(Seq<char>) -> bool, i: int) -> Seq<char>
    decreases i,
{
    if i <= 0 {
        Seq::empty()
    } else {
        let prev = primeiro_valor(ps, eti, i - 1);
        if prev.len() > 0 {
            prev
        } else if ps[i - 1].0.len() > 0 && ps[i - 1].1.len() > 0 && eti(str_lowercase(ps[i - 1].0)) {
            ps[i - 1].1
        } else {
            prev
        }
    }
}

proof fn lemma_campo_primeiro(ps: Seq<(Seq<char>, Seq<char>)>, k: int, eti: spec_fn(Seq<char>) -> bool, i: int)
    requires
        forall|l: Seq<char>| (clase_dt(l) == k) == #[trigger] eti(l),
    ensures
        campo(ps, k, i) == primeiro_valor(ps, eti, i),
    decreases i,
{
    if i > 0 {
        lemma_campo_primeiro(ps, k, eti, i - 1);
        assert((clase_dt(str_lowercase(ps[i - 1].0)) == k) == eti(str_lowercase(ps[i - 1].0)));
    }
}

/// Lei: cada campo do detalle é o primeiro valor non baleiro dunha etiqueta que,
/// en minúsculas, contén a súa palabra clave (e ningunha das palabras clave dos
/// campos anteriores): «referencia», «obxecto», «tipo de tramitación», «tipo de
/// procedemento», «tipo de contrato», «orzamento base», «valor estimado»,
/// «lotes», «sistema de contratación», «observaci», «data de difusión», «sara»,
/// «centralizada» e «lei nacional».
pub proof fn lemma_campos_do_detalle(id: Seq<char>, html: Seq<char>, d: ContractDetail)
    requires
        detail_ok(id, html, d),
    ensures
        ({
            let ps = dt_pairs(capturas_spec(dt_dd_pattern(), html));
            let n = ps.len() as int;
            &&& d.referencia@ == primeiro_valor(ps, |l: Seq<char>| is_infix(l, "referencia"@), n)
            &&& d.obxecto@ == primeiro_valor(ps, |l: Seq<char>| !is_infix(l, "referencia"@) && is_infix(l, "obxecto"@), n)
            &&& d.tipo_tramitacion@ == primeiro_valor(ps, |l: Seq<char>| !is_infix(l, "referencia"@) && !is_infix(l, "obxecto"@) && is_infix(l, "tipo de tramitación"@), n)
            &&& d.tipo_procedemento@ == primeiro_valor(ps, |l: Seq<char>| !is_infix(l, "referencia"@) && !is_infix(l, "obxecto"@) && !is_infix(l, "tipo de tramitación"@) && is_infix(l, "tipo de procedemento"@), n)
            &&& d.tipo_contrato@ == primeiro_valor(ps, |l: Seq<char>| !is_infix(l, "referencia"@) && !is_infix(l, "obxecto"@) && !is_infix(l, "tipo de tramitación"@) && !is_infix(l, "tipo de procedemento"@) && is_infix(l, "tipo de contrato"@), n)
            &&& d.orzamento_base@ == primeiro_valor(ps, |l: Seq<char>| !is_infix(l, "referencia"@) && !is_infix(l, "obxecto"@) && !is_infix(l, "tipo de tramitación"@) && !is_infix(l, "tipo de procedemento"@) && !is_infix(l, "tipo de contrato"@) && is_infix(l, "orzamento base"@), n)
            &&& d.valor_estimado@ == primeiro_valor(ps, |l: Seq<char>| !is_infix(l, "referencia"@) && !is_infix(l, "obxecto"@) && !is_infix(l, "tipo de tramitación"@) && !is_infix(l, "tipo de procedemento"@) && !is_infix(l, "tipo de contrato"@) && !is_infix(l, "orzamento base"@) && is_infix(l, "valor estimado"@), n)
            &&& d.num_lotes@ == primeiro_valor(ps, |l: Seq<char>| !is_infix(l, "referencia"@) && !is_infix(l, "obxecto"@) && !is_infix(l, "tipo de tramitación"@) && !is_infix(l, "tipo de procedemento"@) && !is_infix(l, "tipo de contrato"@) && !is_infix(l, "orzamento base"@) && !is_infix(l, "valor estimado"@) && is_infix(l, "lotes"@), n)
            &&& d.sistema_contratacion@ == primeiro_valor(ps, |l: Seq<char>| !is_infix(l, "referencia"@) && !is_infix(l, "obxecto"@) && !is_infix(l, "tipo de tramitación"@) && !is_infix(l, "tipo de procedemento"@) && !is_infix(l, "tipo de contrato"@) && !is_infix(l, "orzamento base"@) && !is_infix(l, "valor estimado"@) && !is_infix(l, "lotes"@) && is_infix(l, "sistema de contratación"@), n)
            &&& d.observacions@ == primeiro_valor(ps, |l: Seq<char>| !is_infix(l, "referencia"@) && !is_infix(l, "obxecto"@) && !is_infix(l, "tipo de tramitación"@) && !is_infix(l, "tipo de procedemento"@) && !is_infix(l, "tipo de contrato"@) && !is_infix(l, "orzamento base"@) && !is_infix(l, "valor estimado"@) && !is_infix(l, "lotes"@) && !is_infix(l, "sistema de contratación"@) && is_infix(l, "observaci"@), n)
            &&& d.data_difusion@ == primeiro_valor(ps, |l: Seq<char>| !is_infix(l, "referencia"@) && !is_infix(l, "obxecto"@) && !is_infix(l, "tipo de tramitación"@) && !is_infix(l, "tipo de procedemento"@) && !is_infix(l, "tipo de contrato"@) && !is_infix(l, "orzamento base"@) && !is_infix(l, "valor estimado"@) && !is_infix(l, "lotes"@) && !is_infix(l, "sistema de contratación"@) && !is_infix(l, "observaci"@) && is_infix(l, "data de difusión"@), n)
            &&& d.sara@ == primeiro_valor(ps, |l: Seq<char>| !is_infix(l, "referencia"@) && !is_infix(l, "obxecto"@) && !is_infix(l, "tipo de tramitación"@) && !is_infix(l, "tipo de procedemento"@) && !is_infix(l, "tipo de contrato"@) && !is_infix(l, "orzamento base"@) && !is_infix(l, "valor estimado"@) && !is_infix(l, "lotes"@) && !is_infix(l, "sistema de contratación"@) && !is_infix(l, "observaci"@) && !is_infix(l, "data de difusión"@) && is_infix(l, "sara"@), n)
            &&& d.centralizada@ == primeiro_valor(ps, |l: Seq<char>| !is_infix(l, "referencia"@) && !is_infix(l, "obxecto"@) && !is_infix(l, "tipo de tramitación"@) && !is_infix(l, "tipo de procedemento"@) && !is_infix(l, "tipo de contrato"@) && !is_infix(l, "orzamento base"@) && !is_infix(l, "valor estimado"@) && !is_infix(l, "lotes"@) && !is_infix(l, "sistema de contratación"@) && !is_infix(l, "observaci"@) && !is_infix(l, "data de difusión"@) && !is_infix(l, "sara"@) && is_infix(l, "centralizada"@), n)
            &&& d.lei_aplicacion@ == primeiro_valor(ps, |l: Seq<char>| !is_infix(l, "referencia"@) && !is_infix(l, "obxecto"@) && !is_infix(l, "tipo de tramitación"@) && !is_infix(l, "tipo de procedemento"@) && !is_infix(l, "tipo de contrato"@) && !is_infix(l, "orzamento base"@) && !is_infix(l, "valor estimado"@) && !is_infix(l, "lotes"@) && !is_infix(l, "sistema de contratación"@) && !is_infix(l, "observaci"@) && !is_infix(l, "data de difusión"@) && !is_infix(l, "sara"@) && !is_infix(l, "centralizada"@) && is_infix(l, "lei nacional"@), n)
        }),
{
    let ps = dt_pairs(capturas_spec(dt_dd_pattern(), html));
    let n = ps.len() as int;
    lemma_campo_primeiro(ps, 0, |l: Seq<char>| is_infix(l, "referencia"@), n);
    lemma_campo_primeiro(ps, 1, |l: Seq<char>| !is_infix(l, "referencia"@) && is_infix(l, "obxecto"@), n);
    lemma_campo_primeiro(ps, 2, |l: Seq<char>| !is_infix(l, "referencia"@) && !is_infix(l, "obxecto"@) && is_infix(l, "tipo de tramitación"@), n);
    lemma_campo_primeiro(ps, 3, |l: Seq<char>| !is_infix(l, "referencia"@) && !is_infix(l, "obxecto"@) && !is_infix(l, "tipo de tramitación"@) && is_infix(l, "tipo de procedemento"@), n);
    lemma_campo_primeiro(ps, 4, |l: Seq<char>| !is_infix(l, "referencia"@) && !is_infix(l, "obxecto"@) && !is_infix(l, "tipo de tramitación"@) && !is_infix(l, "tipo de procedemento"@) && is_infix(l, "tipo de contrato"@), n);
    lemma_campo_primeiro(ps, 5, |l: Seq<char>| !is_infix(l, "referencia"@) && !is_infix(l, "obxecto"@) && !is_infix(l, "tipo de tramitación"@) && !is_infix(l, "tipo de procedemento"@) && !is_infix(l, "tipo de contrato"@) && is_infix(l, "orzamento base"@), n);
    lemma_campo_primeiro(ps, 6, |l: Seq<char>| !is_infix(l, "referencia"@) && !is_infix(l, "obxecto"@) && !is_infix(l, "tipo de tramitación"@) && !is_infix(l, "tipo de procedemento"@) && !is_infix(l, "tipo de contrato"@) && !is_infix(l, "orzamento base"@) && is_infix(l, "valor estimado"@), n);
    lemma_campo_primeiro(ps, 7, |l: Seq<char>| !is_infix(l, "referencia"@) && !is_infix(l, "obxecto"@) && !is_infix(l, "tipo de tramitación"@) && !is_infix(l, "tipo de procedemento"@) && !is_infix(l, "tipo de contrato"@) && !is_infix(l, "orzamento base"@) && !is_infix(l, "valor estimado"@) && is_infix(l, "lotes"@), n);
    lemma_campo_primeiro(ps, 8, |l: Seq<char>| !is_infix(l, "referencia"@) && !is_infix(l, "obxecto"@) && !is_infix(l, "tipo de tramitación"@) && !is_infix(l, "tipo de procedemento"@) && !is_infix(l, "tipo de contrato"@) && !is_infix(l, "orzamento base"@) && !is_infix(l, "valor estimado"@) && !is_infix(l, "lotes"@) && is_infix(l, "sistema de contratación"@), n);
    lemma_campo_primeiro(ps, 9, |l: Seq<char>| !is_infix(l, "referencia"@) && !is_infix(l, "obxecto"@) && !is_infix(l, "tipo de tramitación"@) && !is_infix(l, "tipo de procedemento"@) && !is_infix(l, "tipo de contrato"@) && !is_infix(l, "orzamento base"@) && !is_infix(l, "valor estimado"@) && !is_infix(l, "lotes"@) && !is_infix(l, "sistema de contratación"@) && is_infix(l, "observaci"@), n);
    lemma_campo_primeiro(ps, 10, |l: Seq<char>| !is_infix(l, "referencia"@) && !is_infix(l, "obxecto"@) && !is_infix(l, "tipo de tramitación"@) && !is_infix(l, "tipo de procedemento"@) && !is_infix(l, "tipo de contrato"@) && !is_infix(l, "orzamento base"@) && !is_infix(l, "valor estimado"@) && !is_infix(l, "lotes"@) && !is_infix(l, "sistema de contratación"@) && !is_infix(l, "observaci"@) && is_infix(l, "data de difusión"@), n);
    lemma_campo_primeiro(ps, 11, |l: Seq<char>| !is_infix(l, "referencia"@) && !is_infix(l, "obxecto"@) && !is_infix(l, "tipo de tramitación"@) && !is_infix(l, "tipo de procedemento"@) && !is_infix(l, "tipo de contrato"@) && !is_infix(l, "orzamento base"@) && !is_infix(l, "valor estimado"@) && !is_infix(l, "lotes"@) && !is_infix(l, "sistema de contratación"@) && !is_infix(l, "observaci"@) && !is_infix(l, "data de difusión"@) && is_infix(l, "sara"@), n);
    lemma_campo_primeiro(ps, 12, |l: Seq<char>| !is_infix(l, "referencia"@) && !is_infix(l, "obxecto"@) && !is_infix(l, "tipo de tramitación"@) && !is_infix(l, "tipo de procedemento"@) && !is_infix(l, "tipo de contrato"@) && !is_infix(l, "orzamento base"@) && !is_infix(l, "valor estimado"@) && !is_infix(l, "lotes"@) && !is_infix(l, "sistema de contratación"@) && !is_infix(l, "observaci"@) && !is_infix(l, "data de difusión"@) && !is_infix(l, "sara"@) && is_infix(l, "centralizada"@), n);
    lemma_campo_primeiro(ps, 13, |l: Seq<char>| !is_infix(l, "referencia"@) && !is_infix(l, "obxecto"@) && !is_infix(l, "tipo de tramitación"@) && !is_infix(l, "tipo de procedemento"@) && !is_infix(l, "tipo de contrato"@) && !is_infix(l, "orzamento base"@) && !is_infix(l, "valor estimado"@) && !is_infix(l, "lotes"@) && !is_infix(l, "sistema de contratación"@) && !is_infix(l, "observaci"@) && !is_infix(l, "data de difusión"@) && !is_infix(l, "sara"@) && !is_infix(l, "centralizada"@) && is_infix(l, "lei nacional"@), n);
}

} // verus!
