//! Construción das consultas da busca local (cláusula WHERE cos seus
//! argumentos posicionais, CTE de contratos filtrados) e outras derivacións dos
//! datos gardados: anos de publicación e marca de participante único.

use vstd::prelude::*;
use crate::model::{normalize_chars, normalize_seq, latin1_seq, lemma_normalize_search_latin1, LocalFilters, SortColumn};
use crate::text::{chars_of, string_of, trim, trim_chars, is_infix, occurs_at};

verus! {

/// Número de aparicións de `c` en `s`.
pub open spec fn count_char(s: Seq<char>, c: char) -> nat
    decreases s.len(),
{
    if s.len() == 0 {
        0
    } else {
        count_char(s.drop_last(), c) + (if s.last() == c {
            1nat
        } else {
            0nat
        })
    }
}

proof fn lemma_count_char_concat(a: Seq<char>, b: Seq<char>, c: char)
    ensures
        count_char(a + b, c) == count_char(a, c) + count_char(b, c),
    decreases b.len(),
{
    if b.len() == 0 {
        assert(a + b == a);
    } else {
        lemma_count_char_concat(a, b.drop_last(), c);
        assert((a + b).drop_last() == a + b.drop_last());
    }
}

// ───────────────────────── Ano dunha data ─────────────────────────

/// En `s` hai un ano (19xx/20xx: catro díxitos que empezan por 19 ou 20) na posición `i`.
pub open spec fn year_at(s: Seq<char>, i: int) -> bool {
    &&& 0 <= i
    &&& i + 4 <= s.len()
    &&& '0' <= s[i + 2] <= '9'
    &&& '0' <= s[i + 3] <= '9'
    &&& ((s[i] == '1' && s[i + 1] == '9') || (s[i] == '2' && s[i + 1] == '0'))
}

/// Primeiro ano (19xx/20xx) presente en `s`, se o hai.
#[verifier::opaque]
pub open spec fn first_year(s: Seq<char>) -> Option<Seq<char>> {
    if exists|i: int| year_at(s, i) {
        let i = choose|i: int| year_at(s, i) && forall|j: int| 0 <= j < i ==> !year_at(s, j);
        Some(s.subrange(i, i + 4))
    } else {
        None
    }
}

proof fn lemma_first_year(s: Seq<char>, i: int)
    requires
        year_at(s, i),
        forall|j: int| 0 <= j < i ==> !year_at(s, j),
    ensures
        first_year(s) == Some(s.subrange(i, i + 4)),
{
    reveal(first_year);
    assert(exists|k: int| year_at(s, k));
    let k = choose|k: int| year_at(s, k) && forall|j: int| 0 <= j < k ==> !year_at(s, j);
    assert(year_at(s, i) && forall|j: int| 0 <= j < i ==> !year_at(s, j));
    if k < i {
        assert(!year_at(s, k));
    }
    if i < k {
        assert(!year_at(s, i));
    }
}

/// Ano (sobre caracteres).
fn extract_year_chars(b: &Vec<char>) -> (r: Option<Vec<char>>)
    ensures
        match r {
            Some(y) => first_year(b@) == Some(y@),
            None => first_year(b@) is None,
        },
{
    let n = b.len();
    if n < 4 {
        assert forall|j: int| !year_at(b@, j) by {}
        proof { reveal(first_year); }
        return None;
    }
    let mut i: usize = 0;
    while i <= n - 4
        invariant
            n == b@.len(),
            4 <= n,
            i <= n - 3,
            forall|j: int| 0 <= j < i ==> !year_at(b@, j),
        decreases n - i,
    {
        let c0 = b[i];
        let c1 = b[i + 1];
        let c2 = b[i + 2];
        let c3 = b[i + 3];
        if '0' <= c2 && c2 <= '9' && '0' <= c3 && c3 <= '9' && ((c0 == '1' && c1 == '9') || (c0
            == '2' && c1 == '0')) {
            let mut y: Vec<char> = Vec::new();
            y.push(c0);
            y.push(c1);
            y.push(c2);
            y.push(c3);
            proof {
                assert(year_at(b@, i as int));
                lemma_first_year(b@, i as int);
                assert(y@ =~= b@.subrange(i as int, i + 4));
            }
            return Some(y);
        }
        i = i + 1;
    }
    assert forall|j: int| !year_at(b@, j) by {
        if 0 <= j && j >= i {
        }
    }
    proof { reveal(first_year); }
    None
}

/// Extrae o ano (19xx/20xx) dunha cadea de data en calquera formato: o
/// primeiro grupo de catro díxitos que empeza por 19 ou 20.
pub fn extract_year(s: &str) -> (r: Option<String>)
    ensures
        match r {
            Some(y) => first_year(s@) == Some(y@),
            None => first_year(s@) is None,
        },
{
    let b = chars_of(s);
    match extract_year_chars(&b) {
        Some(y) => Some(string_of(y.as_slice())),
        None => None,
    }
}

/// Valor numérico dun ano de catro díxitos.
pub open spec fn year_value(y: Seq<char>) -> int {
    1000 * ((y[0] as int) - ('0' as int)) + 100 * ((y[1] as int) - ('0' as int)) + 10 * ((
    y[2] as int) - ('0' as int)) + ((y[3] as int) - ('0' as int))
}

/// Un ano ben formado: catro díxitos ASCII.
pub open spec fn is_year(y: Seq<char>) -> bool {
    y.len() == 4 && forall|k: int| 0 <= k < 4 ==> '0' <= #[trigger] y[k] <= '9'
}

#[verifier::spinoff_prover]
proof fn lemma_year_value_injective(a: Seq<char>, b: Seq<char>)
    requires
        is_year(a),
        is_year(b),
        year_value(a) == year_value(b),
    ensures
        a == b,
{
    assert('0' <= a[0] <= '9' && '0' <= a[1] <= '9' && '0' <= a[2] <= '9' && '0' <= a[3] <= '9');
    assert('0' <= b[0] <= '9' && '0' <= b[1] <= '9' && '0' <= b[2] <= '9' && '0' <= b[3] <= '9');
    assert(a =~= b);
}

proof fn lemma_first_year_is_year(s: Seq<char>)
    ensures
        first_year(s) matches Some(y) ==> is_year(y),
{
    reveal(first_year);
    if exists|i: int| year_at(s, i) {
        let i = choose|i: int| year_at(s, i) && forall|j: int| 0 <= j < i ==> !year_at(s, j);
        if !(year_at(s, i) && forall|j: int| 0 <= j < i ==> !year_at(s, j)) {
            // O primeiro índice cun ano existe: a elección está ben definida.
            let k = choose|k: int| year_at(s, k);
            lemma_min_year_index(s, k);
        }
    }
}

proof fn lemma_min_year_index(s: Seq<char>, k: int)
    requires
        year_at(s, k),
    ensures
        exists|i: int| year_at(s, i) && forall|j: int| 0 <= j < i ==> !year_at(s, j),
    decreases k,
{
    if exists|j: int| 0 <= j < k && year_at(s, j) {
        let j = choose|j: int| 0 <= j < k && year_at(s, j);
        lemma_min_year_index(s, j);
    } else {
        assert(year_at(s, k) && forall|j: int| 0 <= j < k ==> !year_at(s, j));
    }
}

fn year_value_exec(y: &Vec<char>) -> (r: u32)
    requires
        is_year(y@),
    ensures
        r as int == year_value(y@),
        r < 10000,
{
    assert('0' <= y@[0] <= '9' && '0' <= y@[1] <= '9' && '0' <= y@[2] <= '9' && '0' <= y@[3]
        <= '9');
    let d0 = (y[0] as u32) - ('0' as u32);
    let d1 = (y[1] as u32) - ('0' as u32);
    let d2 = (y[2] as u32) - ('0' as u32);
    let d3 = (y[3] as u32) - ('0' as u32);
    1000 * d0 + 100 * d1 + 10 * d2 + d3
}

/// Vista dunha lista de cadeas como secuencia de secuencias de caracteres.
pub open spec fn views(v: Seq<String>) -> Seq<Seq<char>> {
    v.map_values(|s: String| s@)
}

/// Lista de anos estritamente decrecente, con `vals` como os seus valores.
pub open spec fn anos_ok(out: Seq<String>, vals: Seq<u32>) -> bool {
    &&& vals.len() == out.len()
    &&& forall|k: int| 0 <= k < out.len() ==> is_year(#[trigger] out[k]@)
    &&& forall|k: int| 0 <= k < out.len() ==> vals[k] as int == year_value(#[trigger] out[k]@)
    &&& forall|k: int, l: int| 0 <= k < l < out.len() ==> vals[k] > vals[l]
}

/// Engade un ano á lista decrecente se aínda non está.
fn inserir_ano(out: &mut Vec<String>, vals: &mut Vec<u32>, y: String, v: u32)
    requires
        anos_ok(old(out)@, old(vals)@),
        is_year(y@),
        v as int == year_value(y@),
    ensures
        anos_ok(final(out)@, final(vals)@),
        views(final(out)@).to_set() == views(old(out)@).to_set().insert(y@),
{
    let ghost old_out = out@;
    let mut p: usize = 0;
    while p < vals.len() && vals[p] > v
        invariant
            p <= vals@.len(),
            forall|k: int| 0 <= k < p ==> vals@[k] > v,
        decreases vals.len() - p,
    {
        p = p + 1;
    }
    if p < vals.len() && vals[p] == v {
        proof {
            lemma_year_value_injective(out@[p as int]@, y@);
            assert(views(old_out)[p as int] == y@);
            assert(views(old_out).to_set().insert(y@) =~= views(old_out).to_set());
        }
    } else {
        proof {
            assert forall|k: int| p <= k < vals@.len() implies vals@[k] < v by {
                if k > p {
                    assert(vals@[p as int] > vals@[k]);
                }
            }
        }
        vals.insert(p, v);
        out.insert(p, y);
        proof {
            assert(views(out@) =~= views(old_out).insert(p as int, y@));
            assert forall|z: Seq<char>|
                views(out@).to_set().contains(z) <==> views(old_out).to_set().insert(y@).contains(
                    z,
                ) by {
                if views(out@).to_set().contains(z) {
                    let k = choose|k: int| 0 <= k < views(out@).len() && views(out@)[k] == z;
                    if k < p {
                        assert(views(old_out)[k] == z);
                    } else if k > p {
                        assert(views(old_out)[k - 1] == z);
                    }
                }
                if views(old_out).to_set().contains(z) {
                    let k = choose|k: int| 0 <= k < views(old_out).len() && views(old_out)[k] == z;
                    if k < p {
                        assert(views(out@)[k] == z);
                    } else {
                        assert(views(out@)[k + 1] == z);
                    }
                }
                if z == y@ {
                    assert(views(out@)[p as int] == z);
                }
            }
            assert(views(out@).to_set() =~= views(old_out).to_set().insert(y@));
        }
    }
}

/// Anos presentes nas primeiras `i` datas.
pub open spec fn years_upto(ds: Seq<Seq<char>>, i: int) -> Set<Seq<char>>
    decreases i,
{
    if i <= 0 {
        Set::<Seq<char>>::empty()
    } else {
        match first_year(ds[i - 1]) {
            Some(y) => years_upto(ds, i - 1).insert(y),
            None => years_upto(ds, i - 1),
        }
    }
}

proof fn lemma_years_upto(ds: Seq<Seq<char>>, i: int)
    requires
        0 <= i <= ds.len(),
    ensures
        forall|y: Seq<char>|
            years_upto(ds, i).contains(y) <==> exists|d: int|
                0 <= d < i && #[trigger] first_year(ds[d]) == Some(y),
    decreases i,
{
    if i > 0 {
        lemma_years_upto(ds, i - 1);
        assert forall|y: Seq<char>|
            years_upto(ds, i).contains(y) <==> exists|d: int|
                0 <= d < i && #[trigger] first_year(ds[d]) == Some(y) by {
            if years_upto(ds, i).contains(y) {
                if first_year(ds[i - 1]) == Some(y) {
                } else {
                    assert(years_upto(ds, i - 1).contains(y));
                }
            }
            if exists|d: int| 0 <= d < i && #[trigger] first_year(ds[d]) == Some(y) {
                let d = choose|d: int| 0 <= d < i && #[trigger] first_year(ds[d]) == Some(y);
                if d < i - 1 {
                    assert(years_upto(ds, i - 1).contains(y));
                }
            }
        }
    }
}

/// Os anos distintos presentes nas datas dadas, do máis recente ao máis antigo.
pub fn anos_de_datas(datas: &Vec<String>) -> (r: Vec<String>)
    ensures
        forall|k: int| 0 <= k < r@.len() ==> is_year(#[trigger] r@[k]@),
        forall|k: int, l: int|
            0 <= k < l < r@.len() ==> year_value(#[trigger] r@[k]@) > year_value(
                #[trigger] r@[l]@,
            ),
        forall|y: Seq<char>|
            views(r@).contains(y) <==> exists|d: int|
                0 <= d < datas@.len() && #[trigger] first_year(datas@[d]@) == Some(y),
{
    let ghost ds = views(datas@);
    let mut out: Vec<String> = Vec::new();
    let mut vals: Vec<u32> = Vec::new();
    let mut i: usize = 0;
    assert(views(out@).to_set() =~= years_upto(ds, 0));
    while i < datas.len()
        invariant
            i <= datas@.len(),
            ds == views(datas@),
            anos_ok(out@, vals@),
            views(out@).to_set() == years_upto(ds, i as int),
        decreases datas.len() - i,
    {
        let ghost d_i = i as int;
        assert(ds[d_i] == datas@[d_i]@);
        if let Some(y) = extract_year(datas[i].as_str()) {
            proof {
                lemma_first_year_is_year(datas@[d_i]@);
            }
            let yv = chars_of(y.as_str());
            let v = year_value_exec(&yv);
            inserir_ano(&mut out, &mut vals, y, v);
        }
        i = i + 1;
    }
    proof {
        assert forall|k: int, l: int|
            0 <= k < l < out@.len() implies year_value(#[trigger] out@[k]@) > year_value(
            #[trigger] out@[l]@,
        ) by {
            assert(vals@[k] > vals@[l]);
        }
        lemma_years_upto(ds, datas@.len() as int);
        assert forall|y: Seq<char>|
            views(out@).contains(y) <==> exists|d: int|
                0 <= d < datas@.len() && #[trigger] first_year(datas@[d]@) == Some(y) by {
            assert(views(out@).contains(y) <==> views(out@).to_set().contains(y));
            if exists|d: int| 0 <= d < datas@.len() && #[trigger] first_year(datas@[d]@) == Some(y) {
                let d = choose|d: int| 0 <= d < datas@.len() && #[trigger] first_year(datas@[d]@) == Some(y);
                assert(ds[d] == datas@[d]@);
            }
            if years_upto(ds, datas@.len() as int).contains(y) {
                let d = choose|d: int| 0 <= d < datas@.len() && #[trigger] first_year(ds[d]) == Some(y);
                assert(ds[d] == datas@[d]@);
            }
        }
    }
    out
}

// ───────────────────────── Participante único ─────────────────────────

/// Un contrato márcase con participante único só se TODOS os lotes constan cun
/// único participante: o máximo e o mínimo da participación deben ser 1 (un
/// lote con participación descoñecida ou baleira dá 0 e non se marca).
pub fn es_participante_unico(max_part: Option<i64>, min_part: Option<i64>) -> (r: bool)
    ensures
        r == (max_part == Some(1i64) && min_part == Some(1i64)),
{
    match (max_part, min_part) {
        (Some(a), Some(b)) => a == 1 && b == 1,
        _ => false,
    }
}

// ───────────────────────── Cláusula WHERE ─────────────────────────

/// Patrón `LIKE` de subcadea.
pub open spec fn like_of(s: Seq<char>) -> Seq<char> {
    "%"@ + s + "%"@
}

/// Texto baleiro tras recortar os espazos.
pub open spec fn blank(s: Seq<char>) -> bool {
    trim(s).len() == 0
}

pub open spec fn where_texto(f: LocalFilters) -> Seq<char> {
    if blank(f.texto@) {
        Seq::<char>::empty()
    } else {
        " AND (nrm(c.asunto) LIKE ?"@ + " OR nrm(c.referencia) LIKE ?)"@
    }
}

pub open spec fn where_organismo(f: LocalFilters) -> Seq<char> {
    if blank(f.organismo@) {
        Seq::<char>::empty()
    } else {
        " AND nrm(o.nome) LIKE ?"@
    }
}

pub open spec fn where_year(f: LocalFilters) -> Seq<char> {
    if blank(f.year@) {
        Seq::<char>::empty()
    } else {
        " AND c.data_publicacion LIKE ?"@
    }
}

pub open spec fn where_adx(f: LocalFilters) -> Seq<char> {
    if blank(f.adxudicatario@) {
        Seq::<char>::empty()
    } else {
        " AND EXISTS (SELECT 1 FROM"@ + " contract_resolucion x WHERE"@ + " x.contract_id = c.id AND"@ + " nrm(x.adxudicatario) LIKE ?)"@
    }
}

/// Cláusula WHERE (sen o `WHERE` inicial) dos filtros do panel lateral.
pub open spec fn where_sql(f: LocalFilters) -> Seq<char> {
    where_texto(f) + where_organismo(f) + where_year(f) + where_adx(f)
}

/// Argumentos posicionais da cláusula, na orde dos `?`.
pub open spec fn where_args(f: LocalFilters) -> Seq<Seq<char>> {
    (if blank(f.texto@) {
        Seq::<Seq<char>>::empty()
    } else {
        seq![like_of(normalize_seq(f.texto@)), like_of(normalize_seq(f.texto@))]
    }) + (if blank(f.organismo@) {
        Seq::<Seq<char>>::empty()
    } else {
        seq![like_of(normalize_seq(f.organismo@))]
    }) + (if blank(f.year@) {
        Seq::<Seq<char>>::empty()
    } else {
        seq![like_of(trim(f.year@))]
    }) + (if blank(f.adxudicatario@) {
        Seq::<Seq<char>>::empty()
    } else {
        seq![like_of(normalize_seq(f.adxudicatario@))]
    })
}

fn append_str(out: &mut Vec<char>, s: &str)
    ensures
        final(out)@ == old(out)@ + s@,
{
    let mut v = chars_of(s);
    out.append(&mut v);
}

fn like_string(core: &Vec<char>) -> (r: String)
    ensures
        r@ == like_of(core@),
{
    let mut v: Vec<char> = Vec::new();
    v.push('%');
    let mut c = core.clone();
    v.append(&mut c);
    v.push('%');
    proof {
        reveal_strlit("%");
        assert(v@ =~= like_of(core@));
    }
    string_of(v.as_slice())
}

fn is_blank(s: &String) -> (r: bool)
    ensures
        r == blank(s@),
{
    let v = chars_of(s.as_str());
    let t = trim_chars(&v);
    t.len() == 0
}

/// Constrúe a cláusula WHERE (e os seus argumentos posicionais) común á busca
/// local a partir dos filtros. As condicións refírense aos alias `c`
/// (contracts), `o` (organismos) e `e` (estados), que o chamador debe ter no FROM.
pub fn local_where(f: &LocalFilters) -> (r: (String, Vec<String>))
    ensures
        r.0@ == where_sql(*f),
        r.1@.len() == where_args(*f).len(),
        forall|k: int| 0 <= k < r.1@.len() ==> (#[trigger] r.1@[k])@ == where_args(*f)[k],
{
    let mut sql: Vec<char> = Vec::new();
    let mut args: Vec<String> = Vec::new();
    let ghost a0: Seq<Seq<char>> = Seq::empty();
    if !is_blank(&f.texto) {
        append_str(&mut sql, " AND (nrm(c.asunto) LIKE ?");
        append_str(&mut sql, " OR nrm(c.referencia) LIKE ?)");
        let tv = chars_of(f.texto.as_str());
        let like = like_string(&normalize_chars(&tv));
        args.push(like.clone());
        args.push(like);
    }
    let ghost a1 = args@.map_values(|s: String| s@);
    assert(a1 =~= (if blank(f.texto@) {
        Seq::<Seq<char>>::empty()
    } else {
        seq![like_of(normalize_seq(f.texto@)), like_of(normalize_seq(f.texto@))]
    }));
    if !is_blank(&f.organismo) {
        append_str(&mut sql, " AND nrm(o.nome) LIKE ?");
        let ov = chars_of(f.organismo.as_str());
        args.push(like_string(&normalize_chars(&ov)));
    }
    let ghost a2 = args@.map_values(|s: String| s@);
    assert(a2 =~= a1 + (if blank(f.organismo@) {
        Seq::<Seq<char>>::empty()
    } else {
        seq![like_of(normalize_seq(f.organismo@))]
    }));
    if !is_blank(&f.year) {
        append_str(&mut sql, " AND c.data_publicacion LIKE ?");
        let yv = chars_of(f.year.as_str());
        args.push(like_string(&trim_chars(&yv)));
    }
    let ghost a3 = args@.map_values(|s: String| s@);
    assert(a3 =~= a2 + (if blank(f.year@) {
        Seq::<Seq<char>>::empty()
    } else {
        seq![like_of(trim(f.year@))]
    }));
    if !is_blank(&f.adxudicatario) {
        append_str(&mut sql, " AND EXISTS (SELECT 1 FROM");
        append_str(&mut sql, " contract_resolucion x WHERE");
        append_str(&mut sql, " x.contract_id = c.id AND");
        append_str(&mut sql, " nrm(x.adxudicatario) LIKE ?)");
        let xv = chars_of(f.adxudicatario.as_str());
        args.push(like_string(&normalize_chars(&xv)));
    }
    let ghost a4 = args@.map_values(|s: String| s@);
    assert(a4 =~= where_args(*f));
    assert(sql@ =~= where_sql(*f));
    assert forall|k: int| 0 <= k < args@.len() implies (#[trigger] args@[k])@ == where_args(
        *f,
    )[k] by {
        assert(a4[k] == args@[k]@);
    }
    (string_of(sql.as_slice()), args)
}

/// CTE `filtrados` cos ids dos contratos que casan cos filtros do panel lateral.
pub open spec fn filtrados_sql(where_sql: Seq<char>) -> Seq<char> {
    "filtrados AS (SELECT c.id FROM contracts c LEFT JOIN organismos o ON o.cod_organismo = c.cod_organismo LEFT JOIN estados e ON e.cod_estado = c.cod_estado WHERE 1=1"@
        + where_sql + ")"@
}

/// CTE `filtrados`: os ids dos contratos que casan cos filtros do panel lateral
/// (a mesma base que o listado local). `where_sql` é a cláusula que devolve
/// [`local_where`].
pub fn filtrados_cte(where_sql: &str) -> (r: String)
    ensures
        r@ == filtrados_sql(where_sql@),
{
    let mut v: Vec<char> = Vec::new();
    append_str(
        &mut v,
        "filtrados AS (SELECT c.id FROM contracts c LEFT JOIN organismos o ON o.cod_organismo = c.cod_organismo LEFT JOIN estados e ON e.cod_estado = c.cod_estado WHERE 1=1",
    );
    append_str(&mut v, where_sql);
    append_str(&mut v, ")");
    string_of(v.as_slice())
}

// ───────────────────────── Estatísticas e opcións ─────────────────────────

/// Estatísticas da base de datos local.
#[derive(Debug, Clone, Default)]
pub struct DbStats {
    pub total: i64,
    pub con_detalle: i64,
    pub ultima_sync: Option<String>,
}

/// Valores distintos presentes na base de datos, para os despregables da busca local.
#[derive(Debug, Clone, Default)]
pub struct LocalOptions {
    pub adxudicatarios: Vec<String>,
    pub organismos: Vec<String>,
    pub anos: Vec<String>,
}

/// Opcións da busca local: os adxudicatarios e organismos tal cal e os anos
/// distintos das datas de publicación, do máis recente ao máis antigo.
pub fn opcions_locais(adxudicatarios: Vec<String>, organismos: Vec<String>, datas: &Vec<String>) -> (r: LocalOptions)
    ensures
        r.adxudicatarios@ == adxudicatarios@,
        r.organismos@ == organismos@,
        forall|k: int| 0 <= k < r.anos@.len() ==> is_year(#[trigger] r.anos@[k]@),
        forall|k: int, l: int|
            0 <= k < l < r.anos@.len() ==> year_value(#[trigger] r.anos@[k]@) > year_value(#[trigger] r.anos@[l]@),
        forall|y: Seq<char>|
            views(r.anos@).contains(y) <==> exists|d: int|
                0 <= d < datas@.len() && #[trigger] first_year(datas@[d]@) == Some(y),
{
    let anos = anos_de_datas(datas);
    LocalOptions { adxudicatarios, organismos, anos }
}

// ───────────────────────── Orde do listado ─────────────────────────

/// Cláusula ORDER BY do listado: a expresión da columna no sentido escollido,
/// os baleiros ao final e o id numérico descendente como desempate estable.
pub open spec fn orde_spec(col: SortColumn, asc: bool) -> Seq<char> {
    " ORDER BY "@ + col.sql() + (if asc { " ASC"@ } else { " DESC"@ }) + " NULLS LAST, CAST(c.id AS INTEGER) DESC"@
}

/// Cláusula ORDER BY do listado local (só fragmentos fixos, sen entrada do usuario).
pub fn clausula_orde(col: SortColumn, asc: bool) -> (r: String)
    ensures
        r@ == orde_spec(col, asc),
{
    let mut v = chars_of(" ORDER BY ");
    let mut e = chars_of(col.order_sql());
    let mut d = chars_of(if asc { " ASC" } else { " DESC" });
    let mut t = chars_of(" NULLS LAST, CAST(c.id AS INTEGER) DESC");
    v.append(&mut e);
    v.append(&mut d);
    v.append(&mut t);
    string_of(v.as_slice())
}

proof fn lemma_qs_t1()
    ensures
        count_char(" AND (nrm(c.asunto) LIKE ?"@, '?') == 1,
{
    reveal_strlit(" AND (nrm(c.asunto) LIKE ?");
    reveal_with_fuel(count_char, 28);
}

proof fn lemma_qs_t2()
    ensures
        count_char(" OR nrm(c.referencia) LIKE ?)"@, '?') == 1,
{
    reveal_strlit(" OR nrm(c.referencia) LIKE ?)");
    reveal_with_fuel(count_char, 31);
}

proof fn lemma_qs_organismo()
    ensures
        count_char(" AND nrm(o.nome) LIKE ?"@, '?') == 1,
{
    reveal_strlit(" AND nrm(o.nome) LIKE ?");
    reveal_with_fuel(count_char, 25);
}

proof fn lemma_qs_ano()
    ensures
        count_char(" AND c.data_publicacion LIKE ?"@, '?') == 1,
{
    reveal_strlit(" AND c.data_publicacion LIKE ?");
    reveal_with_fuel(count_char, 32);
}

proof fn lemma_qs_a1()
    ensures
        count_char(" AND EXISTS (SELECT 1 FROM"@, '?') == 0,
{
    reveal_strlit(" AND EXISTS (SELECT 1 FROM");
    reveal_with_fuel(count_char, 28);
}

proof fn lemma_qs_a2()
    ensures
        count_char(" contract_resolucion x WHERE"@, '?') == 0,
{
    reveal_strlit(" contract_resolucion x WHERE");
    reveal_with_fuel(count_char, 30);
}

proof fn lemma_qs_a3()
    ensures
        count_char(" x.contract_id = c.id AND"@, '?') == 0,
{
    reveal_strlit(" x.contract_id = c.id AND");
    reveal_with_fuel(count_char, 27);
}

proof fn lemma_qs_a4()
    ensures
        count_char(" nrm(x.adxudicatario) LIKE ?)"@, '?') == 1,
{
    reveal_strlit(" nrm(x.adxudicatario) LIKE ?)");
    reveal_with_fuel(count_char, 31);
}

/// Lei: a cláusula WHERE dos filtros ten tantos `?` como argumentos posicionais.
pub proof fn lemma_where_placeholders(f: LocalFilters)
    ensures
        count_char(where_sql(f), '?') == where_args(f).len(),
{
    lemma_qs_t1();
    lemma_qs_t2();
    lemma_qs_organismo();
    lemma_qs_ano();
    lemma_qs_a1();
    lemma_qs_a2();
    lemma_qs_a3();
    lemma_qs_a4();
    lemma_count_char_concat(" AND (nrm(c.asunto) LIKE ?"@, " OR nrm(c.referencia) LIKE ?)"@, '?');
    lemma_count_char_concat(" AND EXISTS (SELECT 1 FROM"@, " contract_resolucion x WHERE"@, '?');
    lemma_count_char_concat(" AND EXISTS (SELECT 1 FROM"@ + " contract_resolucion x WHERE"@, " x.contract_id = c.id AND"@, '?');
    lemma_count_char_concat(" AND EXISTS (SELECT 1 FROM"@ + " contract_resolucion x WHERE"@ + " x.contract_id = c.id AND"@, " nrm(x.adxudicatario) LIKE ?)"@, '?');
    assert(count_char(Seq::<char>::empty(), '?') == 0);
    lemma_count_char_concat(where_texto(f), where_organismo(f), '?');
    lemma_count_char_concat(where_texto(f) + where_organismo(f), where_year(f), '?');
    lemma_count_char_concat(where_texto(f) + where_organismo(f) + where_year(f), where_adx(f), '?');
}

/// Lei: a cláusula WHERE e os seus argumentos só dependen dos filtros de texto
/// a través da súa forma normalizada (minúsculas sen acentos): dous paneis cuns
/// filtros de texto que só se diferencian en maiúsculas ou acentos dan a mesma
/// consulta cos mesmos argumentos.
pub proof fn lemma_where_insensible(f: LocalFilters, g: LocalFilters)
    requires
        blank(f.texto@) == blank(g.texto@),
        normalize_seq(f.texto@) == normalize_seq(g.texto@),
        blank(f.organismo@) == blank(g.organismo@),
        normalize_seq(f.organismo@) == normalize_seq(g.organismo@),
        blank(f.adxudicatario@) == blank(g.adxudicatario@),
        normalize_seq(f.adxudicatario@) == normalize_seq(g.adxudicatario@),
        blank(f.year@) == blank(g.year@),
        trim(f.year@) == trim(g.year@),
    ensures
        where_sql(f) == where_sql(g),
        where_args(f) == where_args(g),
{
}

/// Núcleo dun argumento `LIKE`: o texto entre os dous `%`.
pub open spec fn nucleo_like(a: Seq<char>) -> Seq<char> {
    a.subrange(1, a.len() - 1)
}

/// O argumento é un patrón de subcadea `%…%` cuxo núcleo é o texto dado.
pub open spec fn like_de(a: Seq<char>, nucleo: Seq<char>) -> bool {
    &&& a.len() == nucleo.len() + 2
    &&& a[0] == '%' && a[a.len() - 1] == '%'
    &&& nucleo_like(a) == nucleo
}

proof fn lemma_like_of(s: Seq<char>)
    ensures
        like_de(like_of(s), s),
{
    reveal_strlit("%");
    assert(nucleo_like(like_of(s)) =~= s);
}

/// Lei: cada filtro de texto non baleiro pasa á consulta como `%` + o texto
/// normalizado para buscas + `%` (o da busca, nas dúas columnas de asunto e
/// referencia; o do organismo e o do adxudicatario, despois), e nos textos
/// Latin-1 ese núcleo xa está normalizado: normalizalo de novo non o cambia.
pub proof fn lemma_where_args_normalizados(f: LocalFilters)
    requires
        latin1_seq(f.texto@),
        latin1_seq(f.organismo@),
        latin1_seq(f.adxudicatario@),
    ensures
        !blank(f.texto@) ==> like_de(where_args(f)[0], normalize_seq(f.texto@)) && like_de(
            where_args(f)[1],
            normalize_seq(f.texto@),
        ) && normalize_seq(nucleo_like(where_args(f)[0])) == nucleo_like(where_args(f)[0]),
        !blank(f.organismo@) ==> ({
            let k = if blank(f.texto@) { 0int } else { 2int };
            like_de(where_args(f)[k], normalize_seq(f.organismo@)) && normalize_seq(nucleo_like(where_args(f)[k]))
                == nucleo_like(where_args(f)[k])
        }),
        !blank(f.year@) ==> ({
            let k = (if blank(f.texto@) { 0int } else { 2int }) + (if blank(f.organismo@) { 0int } else { 1int });
            like_de(where_args(f)[k], trim(f.year@))
        }),
        !blank(f.adxudicatario@) ==> ({
            let a = where_args(f)[where_args(f).len() - 1];
            like_de(a, normalize_seq(f.adxudicatario@)) && normalize_seq(nucleo_like(a)) == nucleo_like(a)
        }),
{
    lemma_normalize_search_latin1(f.texto@);
    lemma_normalize_search_latin1(f.organismo@);
    lemma_normalize_search_latin1(f.adxudicatario@);
    lemma_like_of(normalize_seq(f.texto@));
    lemma_like_of(normalize_seq(f.organismo@));
    lemma_like_of(normalize_seq(f.adxudicatario@));
    lemma_like_of(trim(f.year@));
}

proof fn lemma_infix_en(a: Seq<char>, x: Seq<char>, b: Seq<char>, needle: Seq<char>, off: int)
    requires
        occurs_at(x, needle, off),
    ensures
        is_infix(a + x + b, needle),
{
    let h = a + x + b;
    let i = a.len() + off;
    assert(h.subrange(i, i + needle.len()) =~= x.subrange(off, off + needle.len()));
    assert(occurs_at(h, needle, i));
}

/// Lei: cada filtro de texto non baleiro compara o seu argumento coa columna
/// normalizada (`nrm(…)`) que lle corresponde: a busca co asunto e a referencia,
/// o organismo co nome do organismo e o adxudicatario co adxudicatario dalgunha
/// resolución do contrato; o ano compárase coa data de publicación.
pub proof fn lemma_where_columnas(f: LocalFilters)
    ensures
        !blank(f.texto@) ==> is_infix(where_sql(f), "nrm(c.asunto) LIKE ?"@) && is_infix(
            where_sql(f),
            "nrm(c.referencia) LIKE ?"@,
        ),
        !blank(f.organismo@) ==> is_infix(where_sql(f), "nrm(o.nome) LIKE ?"@),
        !blank(f.year@) ==> is_infix(where_sql(f), "c.data_publicacion LIKE ?"@),
        !blank(f.adxudicatario@) ==> is_infix(where_sql(f), "nrm(x.adxudicatario) LIKE ?"@),
{
    reveal_strlit(" AND (nrm(c.asunto) LIKE ?");
    reveal_strlit(" OR nrm(c.referencia) LIKE ?)");
    reveal_strlit(" AND nrm(o.nome) LIKE ?");
    reveal_strlit(" AND c.data_publicacion LIKE ?");
    reveal_strlit(" AND EXISTS (SELECT 1 FROM");
    reveal_strlit(" contract_resolucion x WHERE");
    reveal_strlit(" x.contract_id = c.id AND");
    reveal_strlit(" nrm(x.adxudicatario) LIKE ?)");
    reveal_strlit("nrm(c.asunto) LIKE ?");
    reveal_strlit("nrm(c.referencia) LIKE ?");
    reveal_strlit("nrm(o.nome) LIKE ?");
    reveal_strlit("c.data_publicacion LIKE ?");
    reveal_strlit("nrm(x.adxudicatario) LIKE ?");
    let wt = where_texto(f);
    let wo = where_organismo(f);
    let wy = where_year(f);
    let wa = where_adx(f);
    if !blank(f.texto@) {
        let p1 = " AND (nrm(c.asunto) LIKE ?"@;
        let p2 = " OR nrm(c.referencia) LIKE ?)"@;
        assert(p1.subrange(6int, 6int + 20) =~= "nrm(c.asunto) LIKE ?"@);
        assert(occurs_at(p1, "nrm(c.asunto) LIKE ?"@, 6));
        lemma_infix_en(Seq::empty(), p1, p2 + wo + wy + wa, "nrm(c.asunto) LIKE ?"@, 6);
        assert(Seq::<char>::empty() + p1 + (p2 + wo + wy + wa) =~= where_sql(f));
        assert(p2.subrange(4int, 4int + 24) =~= "nrm(c.referencia) LIKE ?"@);
        assert(occurs_at(p2, "nrm(c.referencia) LIKE ?"@, 4));
        lemma_infix_en(p1, p2, wo + wy + wa, "nrm(c.referencia) LIKE ?"@, 4);
        assert(p1 + p2 + (wo + wy + wa) =~= where_sql(f));
    }
    if !blank(f.organismo@) {
        assert(wo.subrange(5int, 5int + 18) =~= "nrm(o.nome) LIKE ?"@);
        assert(occurs_at(wo, "nrm(o.nome) LIKE ?"@, 5));
        lemma_infix_en(wt, wo, wy + wa, "nrm(o.nome) LIKE ?"@, 5);
        assert(wt + wo + (wy + wa) =~= where_sql(f));
    }
    if !blank(f.year@) {
        assert(wy.subrange(5int, 5int + 25) =~= "c.data_publicacion LIKE ?"@);
        assert(occurs_at(wy, "c.data_publicacion LIKE ?"@, 5));
        lemma_infix_en(wt + wo, wy, wa, "c.data_publicacion LIKE ?"@, 5);
    }
    if !blank(f.adxudicatario@) {
        let q1 = " AND EXISTS (SELECT 1 FROM"@ + " contract_resolucion x WHERE"@ + " x.contract_id = c.id AND"@;
        let q2 = " nrm(x.adxudicatario) LIKE ?)"@;
        assert(q2.subrange(1int, 1int + 27) =~= "nrm(x.adxudicatario) LIKE ?"@);
        assert(occurs_at(q2, "nrm(x.adxudicatario) LIKE ?"@, 1));
        lemma_infix_en(wt + wo + wy + q1, q2, Seq::empty(), "nrm(x.adxudicatario) LIKE ?"@, 1);
        assert(wt + wo + wy + q1 + q2 + Seq::<char>::empty() =~= where_sql(f));
    }
}

/// Lei: a cláusula ORDER BY ordena pola expresión da columna escollida seguida
/// de `ASC` se o sentido é ascendente e de `DESC` se é descendente, e os dous
/// sentidos dunha columna dan cláusulas distintas, igual ca dúas columnas distintas.
pub proof fn lemma_orde_sentido(col: SortColumn, asc: bool, col2: SortColumn, asc2: bool)
    ensures
        asc ==> is_infix(orde_spec(col, asc), col.sql() + " ASC NULLS LAST"@),
        !asc ==> is_infix(orde_spec(col, asc), col.sql() + " DESC NULLS LAST"@),
        orde_spec(col, asc) == orde_spec(col2, asc2) ==> col == col2 && asc == asc2,
{
    reveal_strlit(" ORDER BY ");
    reveal_strlit(" ASC");
    reveal_strlit(" DESC");
    reveal_strlit(" NULLS LAST, CAST(c.id AS INTEGER) DESC");
    reveal_strlit(" ASC NULLS LAST");
    reveal_strlit(" DESC NULLS LAST");
    crate::model::lemma_orde_columnas(col, col2);
    reveal_strlit("CAST(c.id AS INTEGER)");
    reveal_strlit("c.data_publicacion");
    reveal_strlit("c.asunto COLLATE NOCASE");
    reveal_strlit("c.importe_num");
    reveal_strlit("e.nome COLLATE NOCASE");
    reveal_strlit("o.nome COLLATE NOCASE");
    reveal_strlit("r.adxudicatarios COLLATE NOCASE");
    reveal_strlit("r.importe_total");
    let pre = " ORDER BY "@;
    let sent = if asc { " ASC"@ } else { " DESC"@ };
    let tail = " NULLS LAST, CAST(c.id AS INTEGER) DESC"@;
    let needle = col.sql() + (if asc { " ASC NULLS LAST"@ } else { " DESC NULLS LAST"@ });
    let x = col.sql() + sent + tail.subrange(0, 11);
    assert(x =~= needle);
    assert(orde_spec(col, asc) =~= pre + x + tail.subrange(11, tail.len() as int));
    assert(occurs_at(x, needle, 0)) by {
        assert(x.subrange(0, needle.len() as int) =~= needle);
    }
    lemma_infix_en(pre, x, tail.subrange(11, tail.len() as int), needle, 0);
    if orde_spec(col, asc) == orde_spec(col2, asc2) {
        let s2 = if asc2 { " ASC"@ } else { " DESC"@ };
        let a = orde_spec(col, asc);
        let b = orde_spec(col2, asc2);
        assert(a.len() == b.len());
        assert(col.sql().len() + sent.len() == col2.sql().len() + s2.len());
        if col != col2 {
            assert(col.sql().len() == col2.sql().len());
            assert(a[10] == col.sql()[0] && b[10] == col2.sql()[0]);
        }
    }
}

} // verus!
