//! Ferramentas de texto sobre secuencias de caracteres: propiedades Unicode dos
//! caracteres (delegadas en `std`), recorte, colapso de espazos e busca de
//! subcadeas.

use vstd::prelude::*;

verus! {

// ───────────────────────── Propiedades dos caracteres ─────────────────────────

/// Minúscula Unicode dun carácter (un ou varios caracteres).
pub uninterp spec fn char_lowercase(c: char) -> Seq<char>;

/// Maiúscula Unicode dun carácter (un ou varios caracteres).
pub uninterp spec fn char_uppercase(c: char) -> Seq<char>;

/// Propiedade Unicode `Alphabetic || Numeric` dun carácter.
pub uninterp spec fn char_is_alphanumeric(c: char) -> bool;

/// Propiedade Unicode `Alphabetic` dun carácter.
pub uninterp spec fn char_is_alphabetic(c: char) -> bool;

/// Propiedade Unicode `White_Space` dun carácter: os controis de tabulación e
/// quebra de liña (U+0009 a U+000D), o espazo, U+0085, o espazo sen quebra,
/// U+1680, os espazos tipográficos U+2000 a U+200A, os separadores de liña e de
/// parágrafo, U+202F, U+205F e o espazo ideográfico.
pub open spec fn char_is_whitespace(c: char) -> bool {
    let n = c as u32;
    ||| 0x09 <= n <= 0x0D
    ||| n == 0x20
    ||| n == 0x85
    ||| n == 0xA0
    ||| n == 0x1680
    ||| 0x2000 <= n <= 0x200A
    ||| n == 0x2028
    ||| n == 0x2029
    ||| n == 0x202F
    ||| n == 0x205F
    ||| n == 0x3000
}

/// Minúsculas Unicode dunha cadea enteira.
pub uninterp spec fn str_lowercase(s: Seq<char>) -> Seq<char>;

pub open spec fn is_ascii_upper(c: char) -> bool {
    'A' <= c && c <= 'Z'
}

pub open spec fn is_ascii_lower(c: char) -> bool {
    'a' <= c && c <= 'z'
}

pub open spec fn is_ascii_digit(c: char) -> bool {
    '0' <= c && c <= '9'
}

pub open spec fn is_ascii_char(c: char) -> bool {
    (c as u32) < 128
}

/// Minúscula ASCII dun carácter (os demais quedan igual).
pub open spec fn ascii_lower(c: char) -> char {
    if is_ascii_upper(c) {
        ((c as u32) + 32) as char
    } else {
        c
    }
}

/// Maiúscula ASCII dun carácter (os demais quedan igual).
pub open spec fn ascii_upper(c: char) -> char {
    if is_ascii_lower(c) {
        ((c as u32) - 32) as char
    } else {
        c
    }
}

/// Carácter Latin-1 (ata U+00FF).
pub open spec fn is_latin1_char(c: char) -> bool {
    (c as u32) < 256
}

/// Maiúscula Latin-1 con minúscula dentro de Latin-1: `A-Z` e `À-Þ` agás `×`.
pub open spec fn latin1_upper(c: char) -> bool {
    is_ascii_upper(c) || (0xC0 <= (c as u32) <= 0xDE && (c as u32) != 0xD7)
}

/// Minúscula Latin-1 dun carácter (as maiúsculas Latin-1 pasan á súa minúscula,
/// 0x20 posicións máis adiante; o resto non cambia).
pub open spec fn latin1_lower(c: char) -> char {
    if latin1_upper(c) {
        ((c as u32) + 32) as char
    } else {
        c
    }
}

/// Minúscula dun carácter: a de Latin-1 nos caracteres Latin-1 (`A-Z` e `À-Þ`
/// agás `×` pasan á súa minúscula, o resto non cambia) e a Unicode nos demais.
pub open spec fn minuscula(c: char) -> Seq<char> {
    if is_latin1_char(c) {
        seq![latin1_lower(c)]
    } else {
        char_lowercase(c)
    }
}

/// Maiúscula dun carácter: a ASCII nos caracteres ASCII e a Unicode nos demais.
pub open spec fn maiuscula(c: char) -> Seq<char> {
    if is_ascii_char(c) {
        seq![ascii_upper(c)]
    } else {
        char_uppercase(c)
    }
}

/// Carácter alfanumérico: nos ASCII, letras e díxitos; nos demais, a propiedade Unicode.
pub open spec fn alfanumerico(c: char) -> bool {
    if is_ascii_char(c) {
        is_ascii_upper(c) || is_ascii_lower(c) || is_ascii_digit(c)
    } else {
        char_is_alphanumeric(c)
    }
}

/// Carácter alfabético: nos ASCII, as letras; nos demais, a propiedade Unicode.
pub open spec fn alfabetico(c: char) -> bool {
    if is_ascii_char(c) {
        is_ascii_upper(c) || is_ascii_lower(c)
    } else {
        char_is_alphabetic(c)
    }
}

/// Espazo en branco (propiedade Unicode `White_Space`).
pub open spec fn espazo(c: char) -> bool {
    char_is_whitespace(c)
}

/// `char::to_lowercase`: devolve a minúscula Unicode do carácter. Nos
/// caracteres Latin-1 é un só carácter: as maiúsculas `A-Z` e `À-Þ` (agás `×`)
/// pasan á súa minúscula (0x20 posicións máis adiante) e o resto non cambia,
/// segundo as táboas de maiúsculas e minúsculas de Unicode.
#[verifier::external_body]
pub(crate) fn lowercase_of(c: char) -> (r: Vec<char>)
    ensures
        r@ == char_lowercase(c),
        r@ == minuscula(c),
{
    c.to_lowercase().collect()
}

/// `char::to_uppercase`: devolve a maiúscula Unicode do carácter. Nos
/// caracteres ASCII coincide coa maiúscula ASCII (`a-z` pasan a `A-Z`).
#[verifier::external_body]
pub(crate) fn uppercase_of(c: char) -> (r: Vec<char>)
    ensures
        r@ == char_uppercase(c),
        r@ == maiuscula(c),
{
    c.to_uppercase().collect()
}

/// `char::is_alphanumeric`: nos caracteres ASCII é certo exactamente para as
/// letras e os díxitos.
#[verifier::external_body]
pub(crate) fn is_alphanumeric(c: char) -> (r: bool)
    ensures
        r == char_is_alphanumeric(c),
        r == alfanumerico(c),
{
    c.is_alphanumeric()
}

/// `char::is_alphabetic`: nos caracteres ASCII é certo exactamente para as letras.
#[verifier::external_body]
pub(crate) fn is_alphabetic(c: char) -> (r: bool)
    ensures
        r == char_is_alphabetic(c),
        r == alfabetico(c),
{
    c.is_alphabetic()
}

/// Indica se o carácter ten a propiedade Unicode `White_Space` (o que fai
/// `char::is_whitespace`).
pub(crate) fn is_whitespace(c: char) -> (r: bool)
    ensures
        r == char_is_whitespace(c),
{
    let n = c as u32;
    (0x09 <= n && n <= 0x0D) || n == 0x20 || n == 0x85 || n == 0xA0 || n == 0x1680 || (0x2000 <= n && n <= 0x200A)
        || n == 0x2028 || n == 0x2029 || n == 0x202F || n == 0x205F || n == 0x3000
}

/// `str::to_lowercase`: minúsculas Unicode da cadea. Se toda a cadea é ASCII, o
/// resultado é a minúscula ASCII carácter a carácter.
#[verifier::external_body]
pub(crate) fn lowercase_str(s: &str) -> (r: String)
    ensures
        r@ == str_lowercase(s@),
        (forall|i: int| 0 <= i < s@.len() ==> is_ascii_char(#[trigger] s@[i])) ==> r@ == s@.map_values(
            |c: char| ascii_lower(c),
        ),
{
    s.to_lowercase()
}

// ───────────────────────── Conversións ─────────────────────────

/// `str::chars`: os caracteres da cadea, na súa orde.
#[verifier::external_body]
pub(crate) fn chars_of(s: &str) -> (r: Vec<char>)
    ensures
        r@ == s@,
{
    s.chars().collect()
}

/// `String::from_iter`: a cadea formada polos caracteres dados, na súa orde.
#[verifier::external_body]
pub(crate) fn string_of(v: &[char]) -> (r: String)
    ensures
        r@ == v@,
{
    v.iter().collect()
}

// ───────────────────────── Recorte e espazos ─────────────────────────

/// A cadea sen os espazos en branco iniciais.
pub open spec fn trim_start(s: Seq<char>) -> Seq<char>
    decreases s.len(),
{
    if s.len() > 0 && espazo(s[0]) {
        trim_start(s.drop_first())
    } else {
        s
    }
}

/// A cadea sen os espazos en branco finais.
pub open spec fn trim_end(s: Seq<char>) -> Seq<char>
    decreases s.len(),
{
    if s.len() > 0 && espazo(s.last()) {
        trim_end(s.drop_last())
    } else {
        s
    }
}

/// A cadea sen espazos en branco ao principio nin ao final (`str::trim`).
pub open spec fn trim(s: Seq<char>) -> Seq<char> {
    trim_end(trim_start(s))
}

/// Estado do colapso de espazos tras ler `s`: o texto producido e se hai un
/// espazo pendente (visto tras algunha palabra e aínda non escrito).
pub open spec fn collapse_state(s: Seq<char>) -> (Seq<char>, bool)
    decreases s.len(),
{
    if s.len() == 0 {
        (Seq::<char>::empty(), false)
    } else {
        let (o, p) = collapse_state(s.drop_last());
        let c = s.last();
        if espazo(c) {
            (o, o.len() > 0)
        } else if p {
            (o.push(' ').push(c), false)
        } else {
            (o.push(c), false)
        }
    }
}

/// As palabras de `s` (separadas por espazos en branco) unidas cun único espazo
/// (`split_whitespace().join(" ")`).
pub open spec fn collapse_ws(s: Seq<char>) -> Seq<char> {
    collapse_state(s).0
}

proof fn lemma_trim_start_suffix(s: Seq<char>)
    ensures
        exists|a: int| 0 <= a <= s.len() && trim_start(s) == s.subrange(a, s.len() as int),
        trim_start(s).len() > 0 ==> !espazo(trim_start(s)[0]),
    decreases s.len(),
{
    if s.len() > 0 && espazo(s[0]) {
        lemma_trim_start_suffix(s.drop_first());
        let a = choose|a: int|
            0 <= a <= s.drop_first().len() && trim_start(s.drop_first()) == s.drop_first().subrange(
                a,
                s.drop_first().len() as int,
            );
        assert(s.drop_first().subrange(a, s.drop_first().len() as int) == s.subrange(
            a + 1,
            s.len() as int,
        ));
    } else {
        assert(s.subrange(0, s.len() as int) == s);
    }
}

/// Texto xa colapsado: o único espazo en branco é `' '`, nunca ao principio nin
/// ao final, e nunca dous seguidos.
pub open spec fn colapsado(o: Seq<char>) -> bool {
    forall|k: int|
        0 <= k < o.len() && espazo(#[trigger] o[k]) ==> o[k] == ' ' && 0 < k && k + 1 < o.len() && !espazo(o[k - 1])
            && !espazo(o[k + 1])
}

proof fn lemma_collapse_state_forma(s: Seq<char>)
    ensures
        colapsado(collapse_state(s).0),
        collapse_state(s).1 ==> collapse_state(s).0.len() > 0,
        forall|k: int|
            0 <= k < collapse_state(s).0.len() && #[trigger] collapse_state(s).0[k] != ' ' ==> !espazo(
                collapse_state(s).0[k],
            ) && s.contains(collapse_state(s).0[k]),
    decreases s.len(),
{
    if s.len() > 0 {
        let sd = s.drop_last();
        lemma_collapse_state_forma(sd);
        let (o, p) = collapse_state(sd);
        let c = s.last();
        let r = collapse_state(s).0;
        assert forall|x: char| sd.contains(x) implies s.contains(x) by {
            let j = choose|j: int| 0 <= j < sd.len() && sd[j] == x;
            assert(s[j] == x);
        }
        assert(s[s.len() - 1] == c);
        if !espazo(c) {
            assert forall|k: int| 0 <= k < r.len() && #[trigger] r[k] != ' ' implies !espazo(r[k]) && s.contains(r[k]) by {
                if k < o.len() {
                    assert(r[k] == o[k]);
                    assert(sd.contains(o[k]));
                }
            }
            assert forall|k: int|
                0 <= k < r.len() && espazo(#[trigger] r[k]) implies r[k] == ' ' && 0 < k && k + 1 < r.len() && !espazo(r[k - 1])
                    && !espazo(r[k + 1]) by {
                if k < o.len() {
                    assert(r[k] == o[k]);
                    if k + 1 < o.len() {
                        assert(r[k + 1] == o[k + 1]);
                    }
                    assert(r[k - 1] == o[k - 1]);
                    assert(k + 1 < o.len());
                } else if p && k == o.len() {
                    assert(r[k] == ' ');
                    assert(r[k - 1] == o[k - 1]);
                    assert(!espazo(o[o.len() - 1]));
                    assert(r[k + 1] == c);
                }
            }
        }
    }
}

/// O colapso de espazos deixa un texto colapsado, feito de espazos `' '` e de
/// caracteres do orixinal que non son espazo en branco.
pub proof fn lemma_collapse_forma(s: Seq<char>)
    ensures
        colapsado(collapse_ws(s)),
        forall|k: int|
            0 <= k < collapse_ws(s).len() && #[trigger] collapse_ws(s)[k] != ' ' ==> !espazo(collapse_ws(s)[k])
                && s.contains(collapse_ws(s)[k]),
{
    lemma_collapse_state_forma(s);
}

/// Un texto xa colapsado non cambia ao colapsalo.
pub proof fn lemma_collapse_fixo(x: Seq<char>)
    requires
        colapsado(x),
    ensures
        collapse_ws(x) == x,
{
    assert forall|i: int| 0 <= i <= x.len() implies #[trigger] collapse_state(x.take(i)) == (if i > 0 && x[i - 1] == ' ' {
        (x.take(i - 1), true)
    } else {
        (x.take(i), false)
    }) by {
        lemma_collapse_prefixo(x, i);
    }
    assert(x.take(x.len() as int) == x);
    if x.len() > 0 && x[x.len() - 1] == ' ' {
        assert(espazo(x[x.len() - 1]));
    }
}

proof fn lemma_collapse_prefixo(x: Seq<char>, i: int)
    requires
        colapsado(x),
        0 <= i <= x.len(),
    ensures
        collapse_state(x.take(i)) == (if i > 0 && x[i - 1] == ' ' {
            (x.take(i - 1), true)
        } else {
            (x.take(i), false)
        }),
    decreases i,
{
    if i > 0 {
        lemma_collapse_prefixo(x, i - 1);
        let pre = x.take(i);
        assert(pre.drop_last() == x.take(i - 1));
        assert(pre.last() == x[i - 1]);
        let c = x[i - 1];
        if espazo(c) {
            assert(c == ' ');
            assert(!espazo(x[i - 2]));
            assert(x[i - 2] != ' ');
            assert(x.take(i - 1).len() > 0);
        } else {
            assert(c != ' ');
            if i > 1 && x[i - 2] == ' ' {
                assert(espazo(x[i - 2]));
                assert(x.take(i - 2).push(' ').push(c) =~= x.take(i));
            } else {
                assert(x.take(i - 1).push(c) =~= x.take(i));
            }
        }
    }
}

/// Recorta os espazos en branco ao principio e ao final (`str::trim`).
pub fn trim_chars(s: &Vec<char>) -> (r: Vec<char>)
    ensures
        r@ == trim(s@),
{
    let n = s.len();
    let mut a: usize = 0;
    assert(s@.subrange(0, n as int) == s@);
    while a < n && is_whitespace(s[a])
        invariant
            n == s@.len(),
            a <= n,
            trim_start(s@) == trim_start(s@.subrange(a as int, n as int)),
        decreases n - a,
    {
        assert(s@.subrange(a as int, n as int).drop_first() == s@.subrange(a + 1, n as int));
        a = a + 1;
    }
    let mut b: usize = n;
    let ghost t = s@.subrange(a as int, n as int);
    assert(trim_start(t) == t);
    while b > a && is_whitespace(s[b - 1])
        invariant
            n == s@.len(),
            a <= b <= n,
            t == s@.subrange(a as int, n as int),
            trim_end(t) == trim_end(s@.subrange(a as int, b as int)),
        decreases b,
    {
        assert(s@.subrange(a as int, b as int).drop_last() == s@.subrange(a as int, b - 1));
        b = b - 1;
    }
    let mut r: Vec<char> = Vec::new();
    let mut i: usize = a;
    while i < b
        invariant
            n == s@.len(),
            a <= i <= b <= n,
            r@ == s@.subrange(a as int, i as int),
        decreases b - i,
    {
        r.push(s[i]);
        i = i + 1;
    }
    r
}

/// Recorta os espazos en branco ao principio e ao final dunha cadea (`str::trim`).
pub fn trim_str(s: &str) -> (r: String)
    ensures
        r@ == trim(s@),
{
    let v = chars_of(s);
    let t = trim_chars(&v);
    string_of(t.as_slice())
}

/// Colapsa os espazos en branco: as palabras unidas por un único espazo.
pub fn collapse_whitespace(s: &Vec<char>) -> (r: Vec<char>)
    ensures
        r@ == collapse_ws(s@),
{
    let mut out: Vec<char> = Vec::new();
    let mut pending = false;
    let mut i: usize = 0;
    while i < s.len()
        invariant
            i <= s@.len(),
            (out@, pending) == collapse_state(s@.take(i as int)),
        decreases s.len() - i,
    {
        let c = s[i];
        assert(s@.take(i + 1).drop_last() == s@.take(i as int));
        if is_whitespace(c) {
            if out.len() > 0 {
                pending = true;
            }
        } else {
            if pending {
                out.push(' ');
                pending = false;
            }
            out.push(c);
        }
        i = i + 1;
    }
    assert(s@.take(s@.len() as int) == s@);
    out
}

// ───────────────────────── Subcadeas ─────────────────────────

/// `needle` aparece en `hay` a partir da posición `i`.
pub open spec fn occurs_at(hay: Seq<char>, needle: Seq<char>, i: int) -> bool {
    0 <= i && i + needle.len() <= hay.len() && hay.subrange(i, i + needle.len()) == needle
}

/// `needle` é subcadea de `hay`.
pub open spec fn is_infix(hay: Seq<char>, needle: Seq<char>) -> bool {
    exists|i: int| occurs_at(hay, needle, i)
}

/// Posición da primeira aparición de `needle` en `hay` a partir de `from`.
pub fn find_from(hay: &Vec<char>, needle: &Vec<char>, from: usize) -> (r: Option<usize>)
    requires
        from <= hay@.len(),
    ensures
        match r {
            Some(p) => from <= p && occurs_at(hay@, needle@, p as int) && forall|j: int|
                from <= j < p ==> !occurs_at(hay@, needle@, j),
            None => forall|j: int| from <= j ==> !occurs_at(hay@, needle@, j),
        },
{
    let n = hay.len();
    let m = needle.len();
    if m > n {
        return None;
    }
    if from > n - m {
        return None;
    }
    let last = n - m;
    let mut i: usize = from;
    loop
        invariant
            n == hay@.len(),
            m == needle@.len(),
            m <= n,
            last == n - m,
            from <= i <= last,
            forall|j: int| from <= j < i ==> !occurs_at(hay@, needle@, j),
        decreases last - i,
    {
        let mut k: usize = 0;
        let mut ok = true;
        while k < m
            invariant
                n == hay@.len(),
                m == needle@.len(),
                i + m <= n,
                k <= m,
                ok ==> forall|t: int| 0 <= t < k ==> hay@[i + t] == needle@[t],
                !ok ==> !occurs_at(hay@, needle@, i as int),
            decreases m - k,
        {
            if ok && hay[i + k] != needle[k] {
                ok = false;
                assert(hay@.subrange(i as int, i + m)[k as int] != needle@[k as int]);
            }
            k = k + 1;
        }
        if ok {
            assert(hay@.subrange(i as int, i + m) =~= needle@);
            return Some(i);
        }
        if i == last {
            return None;
        }
        i = i + 1;
    }
}

/// `needle` é subcadea de `hay` (`str::contains`).
pub fn contains_chars(hay: &Vec<char>, needle: &Vec<char>) -> (r: bool)
    ensures
        r == is_infix(hay@, needle@),
{
    match find_from(hay, needle, 0) {
        Some(p) => true,
        None => {
            assert forall|j: int| !occurs_at(hay@, needle@, j) by {
                if j < 0 {
                }
            }
            false
        },
    }
}

/// Posición da primeira aparición de `needle` en `hay` a partir de `from`.
pub open spec fn find_spec(hay: Seq<char>, needle: Seq<char>, from: int) -> Option<int>
    decreases hay.len() + 1 - from,
{
    if from < 0 || from + needle.len() > hay.len() {
        None
    } else if occurs_at(hay, needle, from) {
        Some(from)
    } else {
        find_spec(hay, needle, from + 1)
    }
}

proof fn lemma_find_spec(hay: Seq<char>, needle: Seq<char>, from: int, r: Option<int>)
    requires
        0 <= from,
        match r {
            Some(p) => from <= p && occurs_at(hay, needle, p) && forall|j: int| from <= j < p ==> !occurs_at(hay, needle, j),
            None => forall|j: int| from <= j ==> !occurs_at(hay, needle, j),
        },
    ensures
        find_spec(hay, needle, from) == r,
    decreases hay.len() + 1 - from,
{
    if from + needle.len() > hay.len() {
        if let Some(p) = r {
            assert(p + needle.len() <= hay.len());
        }
    } else if occurs_at(hay, needle, from) {
        if let Some(p) = r {
            if p > from {
                assert(!occurs_at(hay, needle, from));
            }
        }
    } else {
        lemma_find_spec(hay, needle, from + 1, r);
    }
}

/// Posición da primeira aparición de `needle` en `hay` a partir de `from`
/// (`str::find` sobre `hay[from..]`, medida desde o principio).
pub fn busca(hay: &Vec<char>, needle: &Vec<char>, from: usize) -> (r: Option<usize>)
    requires
        from <= hay@.len(),
    ensures
        match r {
            Some(p) => find_spec(hay@, needle@, from as int) == Some(p as int),
            None => find_spec(hay@, needle@, from as int) is None,
        },
{
    let r = find_from(hay, needle, from);
    proof {
        match r {
            Some(p) => lemma_find_spec(hay@, needle@, from as int, Some(p as int)),
            None => lemma_find_spec(hay@, needle@, from as int, None),
        }
    }
    r
}

} // verus!
