//! Importes en formato galego/español (`1.234.567,89 €`): normalización do
//! texto ao formato decimal con punto e presentación dun importe en céntimos.

use vstd::prelude::*;
use crate::text::{chars_of, string_of, is_ascii_digit};

verus! {

// ───────────────────────── Normalización ─────────────────────────

/// Caracteres que se conservan dun importe: díxitos ASCII, coma, punto e guión.
pub open spec fn importe_keep(c: char) -> bool {
    is_ascii_digit(c) || c == ',' || c == '.' || c == '-'
}

/// Os caracteres conservados dun importe, na súa orde.
pub open spec fn importe_clean(s: Seq<char>) -> Seq<char>
    decreases s.len(),
{
    if s.len() == 0 {
        Seq::<char>::empty()
    } else if importe_keep(s.last()) {
        importe_clean(s.drop_last()).push(s.last())
    } else {
        importe_clean(s.drop_last())
    }
}

/// Sen separadores de millares (`.`) e coa coma decimal convertida en punto.
pub open spec fn importe_norm(s: Seq<char>) -> Seq<char>
    decreases s.len(),
{
    if s.len() == 0 {
        Seq::<char>::empty()
    } else if s.last() == '.' {
        importe_norm(s.drop_last())
    } else if s.last() == ',' {
        importe_norm(s.drop_last()).push('.')
    } else {
        importe_norm(s.drop_last()).push(s.last())
    }
}

/// Texto decimal (con punto) dun importe, ou `None` se non ten ningún carácter numérico.
pub open spec fn importe_decimal(s: Seq<char>) -> Option<Seq<char>> {
    if importe_clean(s).len() == 0 {
        None
    } else {
        Some(importe_norm(importe_clean(s)))
    }
}

/// Normaliza un importe en formato galego/español (`1.000.000,00 €`) ao texto
/// decimal con punto (`1000000.00`): consérvanse só os díxitos, as comas, os
/// puntos e os guións; quítanse os separadores de millares (`.`) e a coma pasa a
/// ser o punto decimal. `None` se non queda ningún deses caracteres. O número
/// en coma flotante obtense deste texto.
pub fn normalize_importe(s: &str) -> (r: Option<String>)
    ensures
        match r {
            Some(t) => importe_decimal(s@) == Some(t@),
            None => importe_decimal(s@) is None,
        },
{
    let v = chars_of(s);
    let mut cleaned: Vec<char> = Vec::new();
    let mut i: usize = 0;
    while i < v.len()
        invariant
            i <= v@.len(),
            v@ == s@,
            cleaned@ == importe_clean(v@.take(i as int)),
        decreases v.len() - i,
    {
        let c = v[i];
        if ('0' <= c && c <= '9') || c == ',' || c == '.' || c == '-' {
            cleaned.push(c);
        }
        assert(v@.take(i + 1).drop_last() == v@.take(i as int));
        i = i + 1;
    }
    assert(v@.take(v@.len() as int) == v@);
    if cleaned.len() == 0 {
        return None;
    }
    let mut out: Vec<char> = Vec::new();
    let mut j: usize = 0;
    while j < cleaned.len()
        invariant
            j <= cleaned@.len(),
            out@ == importe_norm(cleaned@.take(j as int)),
        decreases cleaned.len() - j,
    {
        let c = cleaned[j];
        if c == '.' {
        } else if c == ',' {
            out.push('.');
        } else {
            out.push(c);
        }
        assert(cleaned@.take(j + 1).drop_last() == cleaned@.take(j as int));
        j = j + 1;
    }
    assert(cleaned@.take(cleaned@.len() as int) == cleaned@);
    Some(string_of(out.as_slice()))
}

// ───────────────────────── Presentación ─────────────────────────

/// Díxito decimal ASCII dun valor 0..9.
pub open spec fn digit_char(d: nat) -> char {
    ((d + 48) as u32) as char
}

/// Representación decimal dun natural (sen ceros á esquerda).
pub open spec fn dec_digits(n: nat) -> Seq<char>
    decreases n,
{
    if n < 10 {
        seq![digit_char(n)]
    } else {
        dec_digits(n / 10).push(digit_char(n % 10))
    }
}

/// Dous díxitos decimais (con cero á esquerda) dun valor 0..99.
pub open spec fn two_digits(n: nat) -> Seq<char> {
    seq![digit_char(n / 10), digit_char(n % 10)]
}

/// Os díxitos agrupados de tres en tres desde a dereita cun punto.
pub open spec fn group_thousands(d: Seq<char>) -> Seq<char>
    decreases d.len(),
{
    if d.len() <= 3 {
        d
    } else {
        group_thousands(d.subrange(0, d.len() - 3)) + seq!['.'] + d.subrange(
            d.len() - 3,
            d.len() as int,
        )
    }
}

/// Texto dun importe en céntimos no formato galego/español: signo, euros con
/// punto de millares, coma decimal, dous decimais e o símbolo do euro.
pub open spec fn importe_text(neg: bool, cents: nat) -> Seq<char> {
    (if neg {
        seq!['-']
    } else {
        Seq::<char>::empty()
    }) + group_thousands(dec_digits(cents / 100)) + seq![','] + two_digits(cents % 100) + seq![
        ' ',
        '€',
    ]
}

fn digit_exec(d: u64) -> (r: char)
    requires
        d < 10,
    ensures
        r == digit_char(d as nat),
{
    let c: u8 = (d as u8) + 48;
    c as char
}

/// Representación decimal dun enteiro sen signo (`u64::to_string`).
pub fn decimal_digits(n: u64) -> (r: Vec<char>)
    ensures
        r@ == dec_digits(n as nat),
    decreases n,
{
    if n < 10 {
        let mut v: Vec<char> = Vec::new();
        v.push(digit_exec(n));
        v
    } else {
        let mut v = decimal_digits(n / 10);
        v.push(digit_exec(n % 10));
        v
    }
}

fn group_prefix(d: &Vec<char>, end: usize) -> (r: Vec<char>)
    requires
        end <= d@.len(),
    ensures
        r@ == group_thousands(d@.subrange(0, end as int)),
    decreases end,
{
    if end <= 3 {
        let mut r: Vec<char> = Vec::new();
        let mut i: usize = 0;
        while i < end
            invariant
                i <= end <= d@.len(),
                r@ == d@.subrange(0, i as int),
            decreases end - i,
        {
            r.push(d[i]);
            i = i + 1;
        }
        r
    } else {
        let mut r = group_prefix(d, end - 3);
        r.push('.');
        r.push(d[end - 3]);
        r.push(d[end - 2]);
        r.push(d[end - 1]);
        proof {
            let p = d@.subrange(0, end as int);
            assert(p.subrange(0, p.len() - 3) == d@.subrange(0, end - 3));
            assert(r@ =~= group_thousands(d@.subrange(0, end - 3)) + seq!['.'] + p.subrange(
                p.len() - 3,
                p.len() as int,
            ));
        }
        r
    }
}

/// Presenta un importe en céntimos no formato galego/español
/// (`1.234.567,89 €`), con punto como separador de millares e coma como
/// decimal; `neg` antepón o signo menos.
pub fn format_importe_cents(neg: bool, cents: u64) -> (r: String)
    ensures
        r@ == importe_text(neg, cents as nat),
{
    let euros = cents / 100;
    let dec = cents % 100;
    let digits = decimal_digits(euros);
    let mut out: Vec<char> = Vec::new();
    if neg {
        out.push('-');
    }
    let mut g = group_prefix(&digits, digits.len());
    assert(digits@.subrange(0, digits@.len() as int) == digits@);
    out.append(&mut g);
    out.push(',');
    out.push(digit_exec(dec / 10));
    out.push(digit_exec(dec % 10));
    out.push(' ');
    out.push('€');
    assert(out@ =~= importe_text(neg, cents as nat));
    string_of(out.as_slice())
}

// ───────────────────────── Ida e volta ─────────────────────────

proof fn lemma_clean_concat(a: Seq<char>, b: Seq<char>)
    ensures
        importe_clean(a + b) == importe_clean(a) + importe_clean(b),
    decreases b.len(),
{
    if b.len() == 0 {
        assert(a + b == a);
        assert(importe_clean(a) + importe_clean(b) == importe_clean(a));
    } else {
        lemma_clean_concat(a, b.drop_last());
        assert((a + b).drop_last() == a + b.drop_last());
        assert((a + b).last() == b.last());
    }
}

proof fn lemma_norm_concat(a: Seq<char>, b: Seq<char>)
    ensures
        importe_norm(a + b) == importe_norm(a) + importe_norm(b),
    decreases b.len(),
{
    if b.len() == 0 {
        assert(a + b == a);
        assert(importe_norm(a) + importe_norm(b) == importe_norm(a));
    } else {
        lemma_norm_concat(a, b.drop_last());
        assert((a + b).drop_last() == a + b.drop_last());
        assert((a + b).last() == b.last());
    }
}

proof fn lemma_single(c: char)
    ensures
        importe_clean(seq![c]) == (if importe_keep(c) {
            seq![c]
        } else {
            Seq::<char>::empty()
        }),
        importe_norm(seq![c]) == (if c == '.' {
            Seq::<char>::empty()
        } else if c == ',' {
            seq!['.']
        } else {
            seq![c]
        }),
{
    let e = Seq::<char>::empty();
    assert(seq![c].drop_last() =~= e);
    assert(importe_clean(e) == e);
    assert(importe_norm(e) == e);
    assert(e.push(c) =~= seq![c]);
    assert(e.push('.') =~= seq!['.']);
}

/// Secuencia de díxitos ASCII.
pub open spec fn all_digits(d: Seq<char>) -> bool {
    forall|k: int| 0 <= k < d.len() ==> is_ascii_digit(#[trigger] d[k])
}

proof fn lemma_digits_fixed(d: Seq<char>)
    requires
        all_digits(d),
    ensures
        importe_clean(d) == d,
        importe_norm(d) == d,
    decreases d.len(),
{
    if d.len() > 0 {
        assert(is_ascii_digit(d[d.len() - 1]));
        lemma_digits_fixed(d.drop_last());
        assert(d.drop_last().push(d.last()) == d);
    }
}

proof fn lemma_dec_digits(n: nat)
    ensures
        all_digits(dec_digits(n)),
        dec_digits(n).len() > 0,
    decreases n,
{
    if n >= 10 {
        lemma_dec_digits(n / 10);
    }
}

proof fn lemma_group_digits(d: Seq<char>)
    requires
        all_digits(d),
    ensures
        importe_norm(importe_clean(group_thousands(d))) == d,
    decreases d.len(),
{
    if d.len() <= 3 {
        lemma_digits_fixed(d);
    } else {
        let p = d.subrange(0, d.len() - 3);
        let t = d.subrange(d.len() - 3, d.len() as int);
        assert(all_digits(p));
        assert(all_digits(t));
        lemma_group_digits(p);
        lemma_digits_fixed(t);
        let g = group_thousands(p);
        lemma_clean_concat(g + seq!['.'], t);
        lemma_clean_concat(g, seq!['.']);
        lemma_single('.');
        let cg = importe_clean(g);
        lemma_norm_concat(cg + seq!['.'], t);
        lemma_norm_concat(cg, seq!['.']);

        assert(p + t == d);
    }
}

/// Lei de ida e volta: o texto dun importe formatado en céntimos, normalizado,
/// é o número decimal con punto que representa (signo, euros e dous decimais).
pub proof fn lemma_importe_roundtrip(neg: bool, cents: nat)
    ensures
        importe_decimal(importe_text(neg, cents)) == Some(
            (if neg {
                seq!['-']
            } else {
                Seq::<char>::empty()
            }) + dec_digits(cents / 100) + seq!['.'] + two_digits(cents % 100),
        ),
{
    let sign: Seq<char> = if neg {
        seq!['-']
    } else {
        Seq::<char>::empty()
    };
    let e = dec_digits(cents / 100);
    lemma_dec_digits(cents / 100);
    let g = group_thousands(e);
    let dd = two_digits(cents % 100);
    assert(all_digits(dd));
    let tail: Seq<char> = seq![' ', '€'];
    let text = importe_text(neg, cents);
    assert(text == sign + g + seq![','] + dd + tail);
    lemma_clean_concat(sign + g + seq![','] + dd, tail);
    lemma_clean_concat(sign + g + seq![','], dd);
    lemma_clean_concat(sign + g, seq![',']);
    lemma_clean_concat(sign, g);
    lemma_single(' ');
    lemma_single('€');
    lemma_single(',');
    lemma_single('-');
    lemma_clean_concat(seq![' '], seq!['€']);
    assert(seq![' '] + seq!['€'] =~= tail);
    assert(importe_clean(tail) == Seq::<char>::empty());
    assert(importe_clean(Seq::<char>::empty()) == Seq::<char>::empty());
    assert(importe_norm(Seq::<char>::empty()) == Seq::<char>::empty());
    assert(importe_clean(sign) == sign);
    lemma_digits_fixed(dd);
    let cg = importe_clean(g);
    let cleaned = sign + cg + seq![','] + dd;
    assert(importe_clean(text) == cleaned);
    lemma_norm_concat(sign + cg + seq![','], dd);
    lemma_norm_concat(sign + cg, seq![',']);
    lemma_norm_concat(sign, cg);
    lemma_group_digits(e);
    assert(importe_norm(sign) == sign);
    assert(cleaned.len() > 0);
}

} // verus!
