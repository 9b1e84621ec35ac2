//! Perfil do contratante dun organismo: ano do filtro de importación e
//! paxinación das táboas da API.

use vstd::prelude::*;
use crate::text::{chars_of, string_of, trim, trim_chars, trim_str, trim_start, trim_end, is_ascii_digit};
use crate::datas::{bisesto, data_valida};

verus! {

/// Valor decimal dunha secuencia de díxitos ASCII.
pub open spec fn digits_value(d: Seq<char>) -> int
    decreases d.len(),
{
    if d.len() == 0 {
        0
    } else {
        10 * digits_value(d.drop_last()) + ((d.last() as int) - ('0' as int))
    }
}

/// Secuencia non baleira de díxitos ASCII.
pub open spec fn is_digit_run(d: Seq<char>) -> bool {
    d.len() > 0 && forall|k: int| 0 <= k < d.len() ==> is_ascii_digit(#[trigger] d[k])
}

/// Enteiro con signo opcional (`+`/`-`) seguido de díxitos, como o le `str::parse`.
pub open spec fn signed_value(t: Seq<char>) -> Option<int> {
    if t.len() > 0 && (t[0] == '+' || t[0] == '-') {
        if is_digit_run(t.drop_first()) {
            Some(
                if t[0] == '-' {
                    -digits_value(t.drop_first())
                } else {
                    digits_value(t.drop_first())
                },
            )
        } else {
            None
        }
    } else if is_digit_run(t) {
        Some(digits_value(t))
    } else {
        None
    }
}

/// Ano válido do filtro: o texto recortado é un enteiro entre 2000 e 2100.
pub open spec fn ano_spec(s: Seq<char>) -> Option<i32> {
    match signed_value(trim(s)) {
        Some(v) => if 2000 <= v <= 2100 {
            Some(v as i32)
        } else {
            None
        },
        None => None,
    }
}

/// Tope do valor acumulado ao ler díxitos (calquera valor maior é inválido).
pub open spec fn capped(v: int) -> int {
    if v < 100000 {
        v
    } else {
        100000
    }
}

proof fn lemma_digits_nonneg(d: Seq<char>)
    requires
        forall|k: int| 0 <= k < d.len() ==> is_ascii_digit(#[trigger] d[k]),
    ensures
        digits_value(d) >= 0,
    decreases d.len(),
{
    if d.len() > 0 {
        assert(is_ascii_digit(d[d.len() - 1]));
        lemma_digits_nonneg(d.drop_last());
    }
}

/// Valor (acoutado) dos díxitos de `t` desde `from`; `None` se non son todos díxitos
/// ou non hai ningún.
fn capped_digits(t: &Vec<char>, from: usize) -> (r: Option<u32>)
    requires
        from <= t@.len(),
    ensures
        match r {
            Some(v) => is_digit_run(t@.subrange(from as int, t@.len() as int)) && v as int
                == capped(digits_value(t@.subrange(from as int, t@.len() as int))),
            None => !is_digit_run(t@.subrange(from as int, t@.len() as int)),
        },
{
    let n = t.len();
    if from == n {
        return None;
    }
    let mut v: u32 = 0;
    let mut i: usize = from;
    while i < n
        invariant
            from <= i <= n == t@.len(),
            forall|k: int| from <= k < i ==> is_ascii_digit(#[trigger] t@[k]),
            v as int == capped(digits_value(t@.subrange(from as int, i as int))),
        decreases n - i,
    {
        let c = t[i];
        if !('0' <= c && c <= '9') {
            proof {
                let d = t@.subrange(from as int, n as int);
                assert(!is_ascii_digit(d[i - from]));
            }
            return None;
        }
        let dgt = (c as u32) - ('0' as u32);
        proof {
            let p = t@.subrange(from as int, i as int);
            let q = t@.subrange(from as int, i + 1);
            assert(q.drop_last() == p);
            assert(p.len() == i - from);
            assert forall|k: int| 0 <= k < p.len() implies is_ascii_digit(#[trigger] p[k]) by {
                assert(p[k] == t@[from + k]);
            }
            lemma_digits_nonneg(p);
        }
        if v >= 100000 {
            v = 100000;
        } else {
            let w = v * 10 + dgt;
            v = if w < 100000 {
                w
            } else {
                100000
            };
        }
        i = i + 1;
    }
    proof {
        let d = t@.subrange(from as int, n as int);
        assert forall|k: int| 0 <= k < d.len() implies is_ascii_digit(#[trigger] d[k]) by {
            assert(d[k] == t@[from + k]);
        }
    }
    Some(v)
}

/// Ano (i32) a partir do texto do filtro; `None` se non é un ano válido
/// (un enteiro entre 2000 e 2100, con espazos arredor permitidos).
pub fn parse_ano(s: &str) -> (r: Option<i32>)
    ensures
        r == ano_spec(s@),
        r matches Some(y) ==> 2000 <= y <= 2100,
{
    let v = chars_of(s);
    let t = trim_chars(&v);
    let n = t.len();
    if n > 0 && (t[0] == '+' || t[0] == '-') {
        let neg = t[0] == '-';
        proof {
            assert(t@.subrange(1, n as int) == t@.drop_first());
        }
        match capped_digits(&t, 1) {
            Some(x) => {
                proof {
                    lemma_digits_nonneg(t@.drop_first());
                }
                if !neg && 2000 <= x && x <= 2100 {
                    Some(x as i32)
                } else {
                    None
                }
            },
            None => None,
        }
    } else {
        proof {
            assert(t@.subrange(0, n as int) == t@);
        }
        match capped_digits(&t, 0) {
            Some(x) => {
                if 2000 <= x && x <= 2100 {
                    Some(x as i32)
                } else {
                    None
                }
            },
            None => None,
        }
    }
}

// ───────────────────────── Paxinación ─────────────────────────

/// Decisión tras recibir unha páxina da táboa paxinada da API: a nova
/// posición de inicio (`start + n`) e se hai que pedir outra páxina (non se
/// recibiu unha páxina baleira e aínda non se chegou ao total filtrado).
pub fn seguinte_paxina(start: usize, n: usize, filtered: i64) -> (r: (usize, bool))
    requires
        start + n <= usize::MAX,
    ensures
        r.0 == start + n,
        r.1 == (n != 0 && (start + n) < filtered),
{
    let next = start + n;
    let seguir = n != 0 && (next as i128) < (filtered as i128);
    (next, seguir)
}

// ───────────────────────── Contratos menores por ventás ─────────────────────────

/// Ancho máximo (en días) dunha ventá de contratos menores: o servidor rexeita
/// os intervalos longos.
pub const WINDOW_DAYS: i64 = 80;

/// Primeiro ano que representa `chrono` (`NaiveDate`).
pub open spec fn ano_minimo() -> int {
    -262143
}

/// Último ano que representa `chrono` (`NaiveDate`).
pub open spec fn ano_maximo() -> int {
    262142
}

/// Días dos meses anteriores a `m` no ano `y`.
pub open spec fn dias_antes_mes(y: int, m: int) -> int {
    let base: int = if m <= 1 { 0 } else if m == 2 { 31 } else if m == 3 { 59 } else if m == 4 { 90 } else if m == 5 {
        120
    } else if m == 6 { 151 } else if m == 7 { 181 } else if m == 8 { 212 } else if m == 9 { 243 } else if m == 10 {
        273
    } else if m == 11 { 304 } else { 334 };
    if m > 2 && bisesto(y) { base + 1 } else { base }
}

/// Número de día da data no calendario gregoriano proléptico, contando o 1 de
/// xaneiro do ano 1 como día 1.
pub open spec fn dias_ce(y: int, m: int, d: int) -> int {
    let a: int = y - 1;
    365 * a + a / 4 - a / 100 + a / 400 + dias_antes_mes(y, m) + d
}

/// O número de día da data, se existe e o ano está no rango de `chrono`.
pub open spec fn dias_de_data_spec(y: int, m: int, d: int) -> Option<int> {
    if ano_minimo() <= y <= ano_maximo() && data_valida((y, m, d)) {
        Some(dias_ce(y, m, d))
    } else {
        None
    }
}

/// `chrono::NaiveDate::from_ymd_opt` e `Datelike::num_days_from_ce`: o número de
/// día da data no calendario gregoriano proléptico (o 1 de xaneiro do ano 1 é o
/// día 1), ou `None` se a data non existe ou o ano está fóra do rango de
/// `chrono` (de -262143 a 262142).
#[verifier::external_body]
fn dias_de_data(y: i32, m: u32, d: u32) -> (r: Option<i32>)
    ensures
        match r {
            Some(n) => dias_de_data_spec(y as int, m as int, d as int) == Some(n as int),
            None => dias_de_data_spec(y as int, m as int, d as int) is None,
        },
{
    chrono::NaiveDate::from_ymd_opt(y, m, d).map(|x| chrono::Datelike::num_days_from_ce(&x))
}

/// Data (ano, mes, día) do número de día, se está no rango de `chrono`.
pub uninterp spec fn chrono_ymd_from_days(n: int) -> Option<(int, int, int)>;

/// O número de día está dentro do rango de datas de `chrono`.
pub open spec fn dia_en_rango(n: int) -> bool {
    dias_ce(ano_minimo(), 1, 1) <= n <= dias_ce(ano_maximo(), 12, 31)
}

/// `chrono::NaiveDate::from_num_days_from_ce_opt`: a data do número de día (a
/// que ten ese número no calendario gregoriano proléptico, contando o 1 de
/// xaneiro do ano 1 como día 1), ou `None` se o número cae fóra do rango de
/// datas de `chrono`.
#[verifier::external_body]
fn data_de_dias(n: i32) -> (r: Option<(i32, u32, u32)>)
    ensures
        match r {
            Some((y, m, d)) => chrono_ymd_from_days(n as int) == Some((y as int, m as int, d as int))
                && dias_de_data_spec(y as int, m as int, d as int) == Some(n as int) && 1 <= m <= 12 && 1 <= d <= 31,
            None => chrono_ymd_from_days(n as int) is None && !dia_en_rango(n as int),
        },
{
    chrono::NaiveDate::from_num_days_from_ce_opt(n).map(
        |x| (chrono::Datelike::year(&x), chrono::Datelike::month(&x), chrono::Datelike::day(&x)),
    )
}

/// Texto ISO (`AAAA-MM-DD`) do número de día.
pub open spec fn texto_dia_spec(n: int) -> Option<Seq<char>> {
    match chrono_ymd_from_days(n) {
        Some((y, m, d)) => Some(crate::datas::iso_text(y, m, d)),
        None => None,
    }
}

/// Texto ISO (`AAAA-MM-DD`) do número de día: o da data que ten ese número
/// (`None` fóra do rango de datas).
pub fn texto_dia(n: i32) -> (r: Option<String>)
    ensures
        match r {
            Some(t) => texto_dia_spec(n as int) == Some(t@) && exists|y: int, m: int, d: int|
                #[trigger] dias_de_data_spec(y, m, d) == Some(n as int) && t@ == crate::datas::iso_text(y, m, d),
            None => texto_dia_spec(n as int) is None && !dia_en_rango(n as int),
        },
{
    match data_de_dias(n) {
        Some((y, m, d)) => Some(crate::datas::texto_iso(y, m, d)),
        None => None,
    }
}

/// Intervalo de días dos contratos menores dun ano.
#[derive(Debug, Clone, Copy, PartialEq, Eq, Structural)]
pub enum RangoMenores {
    /// O ano non é válido (fóra do rango de datas).
    Invalido,
    /// Non hai días que pedir (o ano comeza despois de hoxe).
    Baleiro,
    /// Do primeiro ao último día (incluídos).
    Dias(i32, i32),
}

/// Intervalo de días dos contratos menores do ano: do 1 de xaneiro ao 31 de
/// decembro, acoutado a hoxe (o servidor non ten datas futuras).
pub open spec fn rango_spec(ano: int, hoxe: int) -> RangoMenores {
    match (dias_de_data_spec(ano, 1, 1), dias_de_data_spec(ano, 12, 31)) {
        (Some(ini), Some(fin_ano)) => {
            let fin = if fin_ano <= hoxe { fin_ano } else { hoxe };
            if ini > fin {
                RangoMenores::Baleiro
            } else {
                RangoMenores::Dias(ini as i32, fin as i32)
            }
        },
        _ => RangoMenores::Invalido,
    }
}

/// Intervalo de días dos contratos menores do ano `ano` sendo `hoxe` o número
/// de día actual.
pub fn rango_menores(ano: i32, hoxe: i32) -> (r: RangoMenores)
    ensures
        r == rango_spec(ano as int, hoxe as int),
{
    let ini = match dias_de_data(ano, 1, 1) {
        Some(n) => n,
        None => return RangoMenores::Invalido,
    };
    let fin_ano = match dias_de_data(ano, 12, 31) {
        Some(n) => n,
        None => return RangoMenores::Invalido,
    };
    let fin = if fin_ano <= hoxe { fin_ano } else { hoxe };
    if ini > fin {
        RangoMenores::Baleiro
    } else {
        RangoMenores::Dias(ini, fin)
    }
}

/// Número de ventás de `WINDOW_DAYS` días que cobren o intervalo.
pub open spec fn num_ventas(ini: int, fin: int) -> int {
    if fin < ini {
        0
    } else {
        (fin - ini + WINDOW_DAYS) / (WINDOW_DAYS as int)
    }
}

/// Ventá `k` do intervalo: `WINDOW_DAYS` días desde `ini + k·WINDOW_DAYS`,
/// acoutada ao final.
pub open spec fn venta(ini: int, fin: int, k: int) -> (int, int) {
    let a = ini + WINDOW_DAYS * k;
    let b = a + WINDOW_DAYS - 1;
    (a, if b <= fin { b } else { fin })
}

/// Divide o intervalo de días `[ini, fin]` en ventás consecutivas de
/// `WINDOW_DAYS` días como moito (a última acoutada a `fin`), que o cobren
/// sen ocos nin solapamentos.
pub fn ventas(ini: i32, fin: i32) -> (r: Vec<(i32, i32)>)
    ensures
        r@.len() == num_ventas(ini as int, fin as int),
        forall|k: int| 0 <= k < r@.len() ==> (#[trigger] r@[k]).0 == venta(ini as int, fin as int, k).0 && r@[k].1
            == venta(ini as int, fin as int, k).1,
        r@.len() > 0 ==> r@[0].0 == ini && r@[r@.len() - 1].1 == fin,
        forall|k: int| 0 <= k < r@.len() ==> (#[trigger] r@[k]).0 <= r@[k].1 && r@[k].1 - r@[k].0 < WINDOW_DAYS,
        forall|k: int| 0 <= k < r@.len() - 1 ==> #[trigger] r@[k + 1].0 == r@[k].1 + 1,
{
    let mut out: Vec<(i32, i32)> = Vec::new();
    if ini > fin {
        return out;
    }
    let mut a: i64 = ini as i64;
    let f: i64 = fin as i64;
    while a <= f
        invariant
            ini <= fin,
            f == fin as i64,
            a == ini + WINDOW_DAYS * out@.len(),
            out@.len() > 0 ==> ini + WINDOW_DAYS * (out@.len() - 1) <= fin,
            forall|k: int| 0 <= k < out@.len() ==> (#[trigger] out@[k]).0 == venta(ini as int, fin as int, k).0 && out@[k].1
                == venta(ini as int, fin as int, k).1,
        decreases f + WINDOW_DAYS - a,
    {
        let b = a + (WINDOW_DAYS - 1);
        let we: i64 = if b <= f { b } else { f };
        out.push((a as i32, we as i32));
        a = a + WINDOW_DAYS;
    }
    proof {
        let n = out@.len() as int;
        assert(n >= 1);
        assert(n == num_ventas(ini as int, fin as int));
    }
    out
}

// ───────────────────────── Deduplicación por id ─────────────────────────

proof fn lemma_contains_push(s: Seq<i64>, x: i64, y: i64)
    ensures
        s.push(x).contains(y) <==> (s.contains(y) || y == x),
{
    if s.push(x).contains(y) && y != x {
        let m = choose|m: int| 0 <= m < s.push(x).len() && s.push(x)[m] == y;
        assert(s[m] == y);
    }
    if s.contains(y) {
        let m = choose|m: int| 0 <= m < s.len() && s[m] == y;
        assert(s.push(x)[m] == y);
    }
    if y == x {
        assert(s.push(x)[s.len() as int] == y);
    }
}

/// Marca que filas da páxina (polos seus ids) son novas: non se viran antes nin
/// aparecen antes na mesma páxina. Os ids novos engádense aos vistos.
pub fn marca_novos(vistos: &mut Vec<i64>, ids: &Vec<i64>) -> (r: Vec<bool>)
    ensures
        r@.len() == ids@.len(),
        forall|k: int| 0 <= k < ids@.len() ==> (#[trigger] r@[k]) == (!old(vistos)@.contains(ids@[k]) && !ids@.take(k).contains(ids@[k])),
        forall|x: i64| #[trigger] final(vistos)@.contains(x) <==> (old(vistos)@.contains(x) || ids@.contains(x)),
        old(vistos)@.len() <= final(vistos)@.len(),
{
    let ghost v0 = vistos@;
    let mut out: Vec<bool> = Vec::new();
    let mut k: usize = 0;
    while k < ids.len()
        invariant
            k <= ids@.len(),
            out@.len() == k,
            forall|q: int| 0 <= q < k ==> (#[trigger] out@[q]) == (!v0.contains(ids@[q]) && !ids@.take(q).contains(ids@[q])),
            forall|y: i64| #[trigger] vistos@.contains(y) <==> (v0.contains(y) || ids@.take(k as int).contains(y)),
            v0.len() <= vistos@.len(),
        decreases ids.len() - k,
    {
        let x = ids[k];
        let mut ja = false;
        let mut j: usize = 0;
        while j < vistos.len()
            invariant
                j <= vistos@.len(),
                ja == exists|m: int| 0 <= m < j && vistos@[m] == x,
            decreases vistos.len() - j,
        {
            if vistos[j] == x {
                ja = true;
            }
            j = j + 1;
        }
        let ghost t0 = ids@.take(k as int);
        let ghost t1 = ids@.take(k + 1);
        let ghost old_v = vistos@;
        proof {
            assert(t1 =~= t0.push(x));
            assert(ja == old_v.contains(x));
            assert(old_v.contains(x) == (v0.contains(x) || t0.contains(x)));
        }
        let nova = !ja;
        out.push(nova);
        if nova {
            vistos.push(x);
        }
        proof {
            assert forall|y: i64| #[trigger] vistos@.contains(y) <==> (v0.contains(y) || t1.contains(y)) by {
                assert(old_v.contains(y) <==> (v0.contains(y) || t0.contains(y)));
                lemma_contains_push(t0, x, y);
                if nova {
                    lemma_contains_push(old_v, x, y);
                }
            }
            assert forall|q: int| 0 <= q < k + 1 implies (#[trigger] out@[q]) == (!v0.contains(ids@[q]) && !ids@.take(q).contains(ids@[q])) by {
                if q == k {
                    assert(ids@[q] == x);
                }
            }
        }
        k = k + 1;
    }
    proof {
        assert(ids@.take(ids@.len() as int) =~= ids@);
    }
    out
}

// ───────────────────────── Parámetros da URL ─────────────────────────

/// Parámetros `clave=valor` unidos por `&`.
pub open spec fn query_spec(ps: Seq<(Seq<char>, Seq<char>)>) -> Seq<char>
    decreases ps.len(),
{
    if ps.len() == 0 {
        Seq::empty()
    } else if ps.len() == 1 {
        ps[0].0 + seq!['='] + ps[0].1
    } else {
        query_spec(ps.drop_last()) + seq!['&'] + ps.last().0 + seq!['='] + ps.last().1
    }
}

/// Cadea de consulta dunha URL: os parámetros `clave=valor` unidos por `&`, na
/// súa orde (os valores xa son ASCII seguro: ids, datas, números).
pub fn query_string(ps: &Vec<(String, String)>) -> (r: String)
    ensures
        r@ == query_spec(crate::scraper::options::pairs_view(ps@)),
{
    let ghost pv = crate::scraper::options::pairs_view(ps@);
    let mut out: Vec<char> = Vec::new();
    let mut i: usize = 0;
    while i < ps.len()
        invariant
            i <= ps@.len(),
            pv == crate::scraper::options::pairs_view(ps@),
            out@ == query_spec(pv.take(i as int)),
        decreases ps.len() - i,
    {
        let ghost pre = pv.take(i as int);
        if i > 0 {
            out.push('&');
        }
        let mut k = chars_of(ps[i].0.as_str());
        let mut v = chars_of(ps[i].1.as_str());
        out.append(&mut k);
        out.push('=');
        out.append(&mut v);
        proof {
            assert(pv.take(i + 1).drop_last() =~= pre);
            assert(pv.take(i + 1).last() == pv[i as int]);
            if i == 0 {
                assert(out@ =~= query_spec(pv.take(1)));
            } else {
                assert(out@ =~= query_spec(pv.take(i + 1)));
            }
        }
        i = i + 1;
    }
    proof {
        assert(pv.take(ps@.len() as int) =~= pv);
    }
    string_of(out.as_slice())
}

/// Campos de texto dun contrato menor da API do perfil do contratante.
pub struct CamposMenor {
    pub publicado: String,
    pub objeto: String,
    pub nif: String,
    pub adjudicatario: String,
    pub duracion: String,
}

/// Os campos de texto dun contrato menor sen os espazos de recheo que a API
/// pon ao principio e ao final.
pub fn limpa_campos_menor(c: &CamposMenor) -> (r: CamposMenor)
    ensures
        r.publicado@ == trim(c.publicado@),
        r.objeto@ == trim(c.objeto@),
        r.nif@ == trim(c.nif@),
        r.adjudicatario@ == trim(c.adjudicatario@),
        r.duracion@ == trim(c.duracion@),
{
    CamposMenor {
        publicado: trim_str(c.publicado.as_str()),
        objeto: trim_str(c.objeto.as_str()),
        nif: trim_str(c.nif.as_str()),
        adjudicatario: trim_str(c.adjudicatario.as_str()),
        duracion: trim_str(c.duracion.as_str()),
    }
}

/// Lei: un ano de catro díxitos entre 2000 e 2100 acéptase co seu valor, e
/// calquera ano aceptado está entre 2000 e 2100.
pub proof fn lemma_ano_valido(y: Seq<char>)
    requires
        y.len() == 4,
        forall|k: int| 0 <= k < 4 ==> is_ascii_digit(#[trigger] y[k]),
    ensures
        ({
            let n = 1000 * (y[0] as int - 48) + 100 * (y[1] as int - 48) + 10 * (y[2] as int - 48) + (y[3] as int - 48);
            2000 <= n <= 2100 ==> ano_spec(y) == Some(n as i32)
        }),
        ano_spec(y) matches Some(v) ==> 2000 <= v <= 2100,
{
    assert(is_ascii_digit(y[0]) && is_ascii_digit(y[3]));
    assert(trim_start(y) == y);
    assert(trim_end(y) == y);
    assert(is_digit_run(y));
    assert(y.drop_last().drop_last().drop_last().drop_last() =~= Seq::<char>::empty());
    assert(y.drop_last().drop_last().drop_last().last() == y[0]);
    assert(y.drop_last().drop_last().last() == y[1]);
    assert(y.drop_last().last() == y[2]);
    reveal_with_fuel(digits_value, 5);
}

} // verus!
