//! Datas: lectura de datas en varios formatos e presentación en formato ISO
//! (`AAAA-MM-DD`) e galego (`DD/MM/AAAA`).

use vstd::prelude::*;
use crate::text::{chars_of, string_of, espazo, is_whitespace, trim, trim_str, trim_start, trim_end, is_ascii_digit};
use crate::importe::{digit_char, dec_digits, decimal_digits, two_digits};

verus! {

/// Data (ano, mes, día) que resulta de ler o texto co formato de `chrono`.
pub uninterp spec fn chrono_date(s: Seq<char>, fmt: Seq<char>) -> Option<(int, int, int)>;

/// Valor dun díxito ASCII.
pub open spec fn dv(c: char) -> int {
    (c as u32) - 48
}

/// Número de dous díxitos.
pub open spec fn n2(a: char, b: char) -> int {
    10 * dv(a) + dv(b)
}

/// Número de catro díxitos.
pub open spec fn n4(a: char, b: char, c: char, d: char) -> int {
    1000 * dv(a) + 100 * dv(b) + 10 * dv(c) + dv(d)
}

/// Texto coa forma exacta `DD/MM/AAAA` (díxitos ASCII).
pub open spec fn forma_gl(s: Seq<char>) -> bool {
    &&& s.len() == 10
    &&& s[2] == '/' && s[5] == '/'
    &&& is_ascii_digit(s[0]) && is_ascii_digit(s[1]) && is_ascii_digit(s[3]) && is_ascii_digit(s[4])
    &&& is_ascii_digit(s[6]) && is_ascii_digit(s[7]) && is_ascii_digit(s[8]) && is_ascii_digit(s[9])
}

/// Texto coa forma exacta `AAAA-MM-DD` (díxitos ASCII).
pub open spec fn forma_iso(s: Seq<char>) -> bool {
    &&& s.len() == 10
    &&& s[4] == '-' && s[7] == '-'
    &&& is_ascii_digit(s[0]) && is_ascii_digit(s[1]) && is_ascii_digit(s[2]) && is_ascii_digit(s[3])
    &&& is_ascii_digit(s[5]) && is_ascii_digit(s[6]) && is_ascii_digit(s[8]) && is_ascii_digit(s[9])
}

/// (ano, mes, día) dos díxitos dun texto `DD/MM/AAAA`.
pub open spec fn gl_ymd(s: Seq<char>) -> (int, int, int) {
    (n4(s[6], s[7], s[8], s[9]), n2(s[3], s[4]), n2(s[0], s[1]))
}

/// (ano, mes, día) dos díxitos dun texto `AAAA-MM-DD`.
pub open spec fn iso_ymd(s: Seq<char>) -> (int, int, int) {
    (n4(s[0], s[1], s[2], s[3]), n2(s[5], s[6]), n2(s[8], s[9]))
}

/// Ano bisesto do calendario gregoriano (proléptico).
pub open spec fn bisesto(y: int) -> bool {
    y % 4 == 0 && (y % 100 != 0 || y % 400 == 0)
}

/// Días do mes `m` do ano `y`.
pub open spec fn dias_mes(y: int, m: int) -> int {
    if m == 2 {
        if bisesto(y) { 29 } else { 28 }
    } else if m == 4 || m == 6 || m == 9 || m == 11 {
        30
    } else {
        31
    }
}

/// A data existe no calendario gregoriano.
pub open spec fn data_valida(t: (int, int, int)) -> bool {
    1 <= t.1 <= 12 && 1 <= t.2 <= dias_mes(t.0, t.1)
}

/// A data, se existe.
pub open spec fn se_valida(t: (int, int, int)) -> Option<(int, int, int)> {
    if data_valida(t) {
        Some(t)
    } else {
        None
    }
}

/// Data lida do texto co formato: nos textos coa forma exacta `DD/MM/AAAA` ou
/// `AAAA-MM-DD` e os formatos correspondentes, a data dos seus díxitos se
/// existe; o texto `DD/MM/AAAA` non casa co formato `%d-%m-%Y`; nos demais
/// casos, o que le `chrono`.
pub open spec fn data_lida(s: Seq<char>, fmt: Seq<char>) -> Option<(int, int, int)> {
    if forma_gl(s) && fmt == "%d/%m/%Y"@ {
        se_valida(gl_ymd(s))
    } else if forma_gl(s) && fmt == "%d-%m-%Y"@ {
        None
    } else if forma_iso(s) && fmt == "%Y-%m-%d"@ {
        se_valida(iso_ymd(s))
    } else {
        chrono_date(s, fmt)
    }
}

/// `chrono::NaiveDate::parse_from_str`: le unha data do texto co formato dado;
/// devolve o ano, o mes (1..=12) e o día (1..=31) dunha data válida, ou `None`
/// se o texto non se axusta ao formato ou a data non existe. Cos formatos
/// `%d/%m/%Y` e `%Y-%m-%d` sobre un texto de exactamente eses díxitos e
/// separadores, a data é a dos díxitos (o ano de catro díxitos, o mes e o día
/// de dous) se existe no calendario gregoriano; o separador `-` do formato
/// `%d-%m-%Y` non casa co `/` dun texto `DD/MM/AAAA`.
#[verifier::external_body]
fn parse_date_fmt(s: &str, fmt: &str) -> (r: Option<(i32, u32, u32)>)
    ensures
        match r {
            Some((y, m, d)) => chrono_date(s@, fmt@) == Some((y as int, m as int, d as int)) && 1 <= m
                <= 12 && 1 <= d <= 31 && data_lida(s@, fmt@) == Some((y as int, m as int, d as int)),
            None => chrono_date(s@, fmt@) is None && data_lida(s@, fmt@) is None,
        },
{
    chrono::NaiveDate::parse_from_str(s, fmt).ok().map(
        |d| (chrono::Datelike::year(&d), chrono::Datelike::month(&d), chrono::Datelike::day(&d)),
    )
}

/// Ceros á esquerda.
pub open spec fn zeros(n: nat) -> Seq<char>
    decreases n,
{
    if n == 0 {
        Seq::<char>::empty()
    } else {
        zeros((n - 1) as nat).push('0')
    }
}

/// Díxitos dun natural con ceros á esquerda ata catro díxitos.
pub open spec fn pad4(n: nat) -> Seq<char> {
    let d = dec_digits(n);
    if d.len() < 4 {
        zeros((4 - d.len()) as nat) + d
    } else {
        d
    }
}

/// Texto do ano (`%Y`): catro díxitos con ceros á esquerda entre 0 e 9999; fóra
/// dese rango, co signo diante.
pub open spec fn year_text(y: int) -> Seq<char> {
    if 0 <= y < 10000 {
        pad4(y as nat)
    } else if y < 0 {
        seq!['-'] + pad4((-y) as nat)
    } else {
        seq!['+'] + pad4(y as nat)
    }
}

/// Data en formato ISO (`%Y-%m-%d`).
pub open spec fn iso_text(y: int, m: int, d: int) -> Seq<char> {
    year_text(y) + seq!['-'] + two_digits(m as nat) + seq!['-'] + two_digits(d as nat)
}

/// Data en formato galego (`%d/%m/%Y`).
pub open spec fn gl_text(y: int, m: int, d: int) -> Seq<char> {
    two_digits(d as nat) + seq!['/'] + two_digits(m as nat) + seq!['/'] + year_text(y)
}

fn push_pad4(out: &mut Vec<char>, n: u64)
    ensures
        final(out)@ == old(out)@ + pad4(n as nat),
{
    let d = decimal_digits(n);
    let mut k: usize = d.len();
    while k < 4
        invariant
            d@.len() <= k,
            d@.len() < 4 ==> k <= 4,
            d@.len() >= 4 ==> k == d@.len(),
            out@ == old(out)@ + zeros((k - d@.len()) as nat),
        decreases 4 - k,
    {
        out.push('0');
        k = k + 1;
    }
    proof {
        assert(d@.take(0) =~= Seq::<char>::empty());
        if d@.len() >= 4 {
            assert(zeros(0) =~= Seq::<char>::empty());
            assert(out@ =~= old(out)@ + d@.take(0));
        } else {
            assert(out@ =~= old(out)@ + zeros((4 - d@.len()) as nat) + d@.take(0));
        }
    }
    let mut i: usize = 0;
    while i < d.len()
        invariant
            i <= d@.len(),
            d@.len() < 4 ==> out@ == old(out)@ + zeros((4 - d@.len()) as nat) + d@.take(i as int),
            d@.len() >= 4 ==> out@ == old(out)@ + d@.take(i as int),
        decreases d.len() - i,
    {
        out.push(d[i]);
        i = i + 1;
    }
    assert(d@.take(d@.len() as int) == d@);
}

fn push_year(out: &mut Vec<char>, y: i32)
    ensures
        final(out)@ == old(out)@ + year_text(y as int),
{
    if 0 <= y && y < 10000 {
        push_pad4(out, y as u64);
    } else if y < 0 {
        out.push('-');
        let a: i64 = -(y as i64);
        push_pad4(out, a as u64);
    } else {
        out.push('+');
        push_pad4(out, y as u64);
    }
}

fn push_two(out: &mut Vec<char>, n: u32)
    requires
        n < 100,
    ensures
        final(out)@ == old(out)@ + two_digits(n as nat),
{
    let a: u8 = (n / 10) as u8 + 48;
    let b: u8 = (n % 10) as u8 + 48;
    out.push(a as char);
    out.push(b as char);
}

/// Texto ISO (`AAAA-MM-DD`) dunha data.
pub fn texto_iso(y: i32, m: u32, d: u32) -> (r: String)
    requires
        m < 100,
        d < 100,
    ensures
        r@ == iso_text(y as int, m as int, d as int),
{
    let mut out: Vec<char> = Vec::new();
    push_year(&mut out, y);
    out.push('-');
    push_two(&mut out, m);
    out.push('-');
    push_two(&mut out, d);
    assert(out@ =~= iso_text(y as int, m as int, d as int));
    string_of(out.as_slice())
}

/// Texto galego (`DD/MM/AAAA`) dunha data.
pub fn texto_gl(y: i32, m: u32, d: u32) -> (r: String)
    requires
        m < 100,
        d < 100,
    ensures
        r@ == gl_text(y as int, m as int, d as int),
{
    let mut out: Vec<char> = Vec::new();
    push_two(&mut out, d);
    out.push('/');
    push_two(&mut out, m);
    out.push('/');
    push_year(&mut out, y);
    assert(out@ =~= gl_text(y as int, m as int, d as int));
    string_of(out.as_slice())
}

/// Os caracteres iniciais ata o primeiro espazo en branco.
pub open spec fn take_word(t: Seq<char>) -> Seq<char>
    decreases t.len(),
{
    if t.len() == 0 || espazo(t[0]) {
        Seq::<char>::empty()
    } else {
        seq![t[0]] + take_word(t.drop_first())
    }
}

/// Os espazos en branco iniciais descartados.
pub open spec fn skip_ws(t: Seq<char>) -> Seq<char>
    decreases t.len(),
{
    if t.len() > 0 && espazo(t[0]) {
        skip_ws(t.drop_first())
    } else {
        t
    }
}

/// A primeira palabra do texto (`split_whitespace().next()`), baleira se non hai.
pub open spec fn first_word(s: Seq<char>) -> Seq<char> {
    take_word(skip_ws(s))
}

/// Data ISO dunha data lida co formato, se se puido ler.
pub open spec fn iso_if(r: Option<(int, int, int)>) -> Option<Seq<char>> {
    match r {
        Some((y, m, d)) => Some(iso_text(y, m, d)),
        None => None,
    }
}

/// Data ISO do primeiro elemento do texto, lido co primeiro formato que encaixe
/// de `DD-MM-AAAA`, `DD/MM/AAAA`, `AAAA-MM-DD` e `AAAA/MM/DD`.
pub open spec fn parse_data_spec(s: Seq<char>) -> Option<Seq<char>> {
    let tok = first_word(s);
    if tok.len() == 0 {
        None
    } else if data_lida(tok, "%d-%m-%Y"@) is Some {
        iso_if(data_lida(tok, "%d-%m-%Y"@))
    } else if data_lida(tok, "%d/%m/%Y"@) is Some {
        iso_if(data_lida(tok, "%d/%m/%Y"@))
    } else if data_lida(tok, "%Y-%m-%d"@) is Some {
        iso_if(data_lida(tok, "%Y-%m-%d"@))
    } else {
        iso_if(data_lida(tok, "%Y/%m/%d"@))
    }
}

/// A primeira palabra dun texto.
fn primeira_palabra(s: &str) -> (r: String)
    ensures
        r@ == first_word(s@),
{
    let v = chars_of(s);
    let mut a: usize = 0;
    proof {
        assert(v@.subrange(0, v@.len() as int) == v@);
    }
    while a < v.len() && is_whitespace(v[a])
        invariant
            a <= v@.len(),
            v@ == s@,
            skip_ws(s@) == skip_ws(v@.subrange(a as int, v@.len() as int)),
        decreases v.len() - a,
    {
        assert(v@.subrange(a as int, v@.len() as int).drop_first() == v@.subrange(a + 1, v@.len() as int));
        a = a + 1;
    }
    let ghost t = v@.subrange(a as int, v@.len() as int);
    assert(skip_ws(t) == t);
    let mut b: usize = a;
    while b < v.len() && !is_whitespace(v[b])
        invariant
            a <= b <= v@.len(),
            t == v@.subrange(a as int, v@.len() as int),
            take_word(t) == v@.subrange(a as int, b as int) + take_word(v@.subrange(b as int, v@.len() as int)),
        decreases v.len() - b,
    {
        proof {
            let rest = v@.subrange(b as int, v@.len() as int);
            assert(rest.drop_first() == v@.subrange(b + 1, v@.len() as int));
            assert(v@.subrange(a as int, b + 1) == v@.subrange(a as int, b as int) + seq![rest[0]]);
        }
        b = b + 1;
    }
    proof {
        assert(take_word(v@.subrange(b as int, v@.len() as int)) == Seq::<char>::empty());
        assert(v@.subrange(a as int, b as int) + Seq::<char>::empty() == v@.subrange(a as int, b as int));
    }
    let mut out: Vec<char> = Vec::new();
    let mut i: usize = a;
    while i < b
        invariant
            a <= i <= b <= v@.len(),
            out@ == v@.subrange(a as int, i as int),
        decreases b - i,
    {
        out.push(v[i]);
        i = i + 1;
    }
    string_of(out.as_slice())
}

/// Le unha data en calquera dos formatos `DD-MM-AAAA`, `DD/MM/AAAA`,
/// `AAAA-MM-DD` ou `AAAA/MM/DD` (só a primeira palabra do texto, para descartar
/// a hora) e devólvea en formato ISO `AAAA-MM-DD`.
pub fn parse_data(s: &str) -> (r: Option<String>)
    ensures
        match r {
            Some(t) => parse_data_spec(s@) == Some(t@),
            None => parse_data_spec(s@) is None,
        },
{
    let token = primeira_palabra(s);
    if token.as_str().is_empty() {
        return None;
    }
    let f1 = "%d-%m-%Y";
    let f2 = "%d/%m/%Y";
    let f3 = "%Y-%m-%d";
    let f4 = "%Y/%m/%d";
    let mut res = parse_date_fmt(token.as_str(), f1);
    if res.is_none() {
        res = parse_date_fmt(token.as_str(), f2);
        if res.is_none() {
            res = parse_date_fmt(token.as_str(), f3);
            if res.is_none() {
                res = parse_date_fmt(token.as_str(), f4);
            }
        }
    }
    match res {
        Some((y, m, d)) => Some(texto_iso(y, m, d)),
        None => None,
    }
}

/// Data ISO presentada en formato galego, ou o texto tal cal se non é unha data ISO.
pub open spec fn format_data_gl_spec(iso: Seq<char>) -> Seq<char> {
    match data_lida(trim(iso), "%Y-%m-%d"@) {
        Some((y, m, d)) => gl_text(y, m, d),
        None => iso,
    }
}

/// Presenta unha data ISO (`AAAA-MM-DD`) en formato galego (`DD/MM/AAAA`); se
/// non é unha data ISO, devolve o texto tal cal.
pub fn format_data_gl(iso: &str) -> (r: String)
    ensures
        r@ == format_data_gl_spec(iso@),
{
    let t = trim_str(iso);
    match parse_date_fmt(t.as_str(), "%Y-%m-%d") {
        Some((y, m, d)) => texto_gl(y, m, d),
        None => iso.to_owned(),
    }
}

// ───────────────────────── Ida e volta dunha data ─────────────────────────

proof fn lemma_digito(c: char)
    requires
        is_ascii_digit(c),
    ensures
        0 <= dv(c) <= 9,
        digit_char(dv(c) as nat) == c,
        !espazo(c),
{
}

proof fn lemma_two_digits(a: char, b: char)
    requires
        is_ascii_digit(a),
        is_ascii_digit(b),
    ensures
        two_digits(n2(a, b) as nat) == seq![a, b],
        0 <= n2(a, b) <= 99,
{
    lemma_digito(a);
    lemma_digito(b);
    let n = n2(a, b);
    assert(n / 10 == dv(a) && n % 10 == dv(b));
}

proof fn lemma_pad4(a: char, b: char, c: char, d: char)
    requires
        is_ascii_digit(a),
        is_ascii_digit(b),
        is_ascii_digit(c),
        is_ascii_digit(d),
    ensures
        pad4(n4(a, b, c, d) as nat) == seq![a, b, c, d],
        0 <= n4(a, b, c, d) <= 9999,
{
    lemma_digito(a);
    lemma_digito(b);
    lemma_digito(c);
    lemma_digito(d);
    let n = n4(a, b, c, d);
    let n1 = 100 * dv(a) + 10 * dv(b) + dv(c);
    let n2_ = 10 * dv(a) + dv(b);
    assert(n / 10 == n1 && n % 10 == dv(d));
    assert(n1 / 10 == n2_ && n1 % 10 == dv(c));
    assert(n2_ / 10 == dv(a) && n2_ % 10 == dv(b));
    reveal_with_fuel(dec_digits, 4);
    reveal_with_fuel(zeros, 4);
    if dv(a) > 0 {
        assert(dec_digits(n as nat) =~= seq![a, b, c, d]);
    } else if dv(b) > 0 {
        assert(dec_digits(n as nat) =~= seq![b, c, d]);
        assert(zeros(1) =~= seq!['0']);
    } else if dv(c) > 0 {
        assert(dec_digits(n as nat) =~= seq![c, d]);
        assert(zeros(2) =~= seq!['0', '0']);
    } else {
        assert(dec_digits(n as nat) =~= seq![d]);
        assert(zeros(3) =~= seq!['0', '0', '0']);
    }
}

proof fn lemma_sen_espazos(t: Seq<char>)
    requires
        forall|i: int| 0 <= i < t.len() ==> !espazo(#[trigger] t[i]),
    ensures
        take_word(t) == t,
        skip_ws(t) == t,
    decreases t.len(),
{
    if t.len() > 0 {
        assert(!espazo(t[0]));
        let td = t.drop_first();
        assert forall|i: int| 0 <= i < td.len() implies !espazo(#[trigger] td[i]) by {
            assert(td[i] == t[i + 1]);
        }
        lemma_sen_espazos(td);
        assert(seq![t[0]] + td =~= t);
    }
}

/// Unha data ISO `AAAA-MM-DD` existente, presentada en formato galego e lida de
/// novo, dá a mesma data ISO; a súa presentación é `DD/MM/AAAA` cos mesmos díxitos.
pub proof fn lemma_data_ida_volta(d: Seq<char>)
    requires
        forma_iso(d),
        data_valida(iso_ymd(d)),
    ensures
        format_data_gl_spec(d) == seq![d[8], d[9], '/', d[5], d[6], '/', d[0], d[1], d[2], d[3]],
        parse_data_spec(format_data_gl_spec(d)) == Some(d),
{
    reveal_strlit("%Y-%m-%d");
    reveal_strlit("%d/%m/%Y");
    reveal_strlit("%d-%m-%Y");
    let (y, m, dd) = iso_ymd(d);
    lemma_digito(d[0]);
    lemma_digito(d[9]);
    assert(trim_start(d) == d);
    assert(trim_end(d) == d);
    assert(!forma_gl(d));
    assert(data_lida(d, "%Y-%m-%d"@) == Some((y, m, dd)));
    lemma_pad4(d[0], d[1], d[2], d[3]);
    lemma_two_digits(d[5], d[6]);
    lemma_two_digits(d[8], d[9]);
    let g = gl_text(y, m, dd);
    assert(year_text(y) == pad4(y as nat));
    assert(g =~= seq![d[8], d[9], '/', d[5], d[6], '/', d[0], d[1], d[2], d[3]]);
    assert(format_data_gl_spec(d) == g);
    assert(forma_gl(g));
    assert forall|i: int| 0 <= i < g.len() implies !espazo(#[trigger] g[i]) by {
        if g[i] != '/' {
            lemma_digito(g[i]);
        }
    }
    lemma_sen_espazos(g);
    assert(first_word(g) == g);
    assert(gl_ymd(g) == (y, m, dd));
    assert("%d-%m-%Y"@[2] != "%d/%m/%Y"@[2]);
    assert(data_lida(g, "%d-%m-%Y"@) is None);
    assert(data_lida(g, "%d/%m/%Y"@) == Some((y, m, dd)));
    assert(iso_text(y, m, dd) =~= d);
}

/// Unha data galega `DD/MM/AAAA` existente lese como a data ISO cos mesmos
/// díxitos, e presentada de novo dá o mesmo texto.
pub proof fn lemma_data_volta_ida(s: Seq<char>)
    requires
        forma_gl(s),
        data_valida(gl_ymd(s)),
    ensures
        parse_data_spec(s) == Some(seq![s[6], s[7], s[8], s[9], '-', s[3], s[4], '-', s[0], s[1]]),
        format_data_gl_spec(seq![s[6], s[7], s[8], s[9], '-', s[3], s[4], '-', s[0], s[1]]) == s,
{
    reveal_strlit("%d/%m/%Y");
    reveal_strlit("%d-%m-%Y");
    let (y, m, dd) = gl_ymd(s);
    let iso = seq![s[6], s[7], s[8], s[9], '-', s[3], s[4], '-', s[0], s[1]];
    assert forall|i: int| 0 <= i < s.len() implies !espazo(#[trigger] s[i]) by {
        if s[i] != '/' {
            lemma_digito(s[i]);
        }
    }
    lemma_sen_espazos(s);
    assert(first_word(s) == s);
    assert("%d-%m-%Y"@[2] != "%d/%m/%Y"@[2]);
    assert(data_lida(s, "%d-%m-%Y"@) is None);
    assert(data_lida(s, "%d/%m/%Y"@) == Some((y, m, dd)));
    lemma_pad4(s[6], s[7], s[8], s[9]);
    lemma_two_digits(s[3], s[4]);
    lemma_two_digits(s[0], s[1]);
    assert(iso_text(y, m, dd) =~= iso);
    assert(forma_iso(iso));
    assert(iso_ymd(iso) == (y, m, dd));
    lemma_data_ida_volta(iso);
    assert(seq![iso[8], iso[9], '/', iso[5], iso[6], '/', iso[0], iso[1], iso[2], iso[3]] =~= s);
}

} // verus!
