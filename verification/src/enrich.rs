//! Enriquecemento dos adxudicatarios con datoscif.es: os tipos do proceso e as
//! decisións que se toman entre unha consulta e a seguinte (suxestións acumuladas,
//! candidatos a validar por CIF e contadores do resumo).

use vstd::prelude::*;
use crate::model::{Suggestion, normalize_nif, nif_seq, ascii_seq, lemma_normalize_nif_ascii};

verus! {

/// Modo de enriquecemento.
#[derive(Debug, Clone, Copy, PartialEq, Eq, Structural)]
pub enum EnrichMode {
    /// Procesa só os adxudicatarios aínda sen emparellar (novos).
    Novos,
    /// Volve descargar a ficha e os cargos de TODAS as empresas xa vinculadas.
    Reimportar,
}

/// Resumo dun enriquecemento.
#[derive(Debug, Clone, Default)]
pub struct EnrichResult {
    pub procesados: usize,
    pub vinculados: usize,
    pub sen_match: usize,
    pub empresas_con_cargos: usize,
    pub cargos: usize,
    pub erros: usize,
    /// Empresas membro de UTE vinculadas (validadas por CIF).
    pub ute_membros: usize,
    /// Casos deixados para revisión manual (con candidatos plausibles).
    pub a_revisar: usize,
    /// `true` se o resultado é dunha reimportación.
    pub reimport: bool,
}

// ───────────────────────── Suxestións ─────────────────────────

/// Urls das suxestións.
pub open spec fn urls_de(s: Seq<Suggestion>) -> Seq<Seq<char>> {
    s.map_values(|x: Suggestion| x.url@)
}

/// As suxestións novas (url aínda non vista, nin antes na mesma lista), en orde.
pub open spec fn novas(vistas: Seq<Seq<char>>, found: Seq<Suggestion>) -> Seq<Suggestion>
    decreases found.len(),
{
    if found.len() == 0 {
        Seq::empty()
    } else {
        let prev = novas(vistas, found.drop_last());
        let u = found.last().url@;
        if vistas.contains(u) || urls_de(found.drop_last()).contains(u) {
            prev
        } else {
            prev.push(found.last())
        }
    }
}

/// Engade as suxestións atopadas cuxa url aínda non estaba, na súa orde.
pub fn engade_suxestions(suggestions: &mut Vec<Suggestion>, found: Vec<Suggestion>)
    ensures
        final(suggestions)@ == old(suggestions)@ + novas(urls_de(old(suggestions)@), found@),
{
    let ghost s0 = suggestions@;
    let ghost f = found@;
    let mut i: usize = 0;
    while i < found.len()
        invariant
            i <= found@.len(),
            f == found@,
            suggestions@ == s0 + novas(urls_de(s0), f.take(i as int)),
        decreases found.len() - i,
    {
        let ghost pre = f.take(i as int);
        assert(f.take(i + 1).drop_last() == pre);
        assert(f.take(i + 1).last() == f[i as int]);
        let u = &found[i].url;
        let mut ja = false;
        let mut j: usize = 0;
        while j < suggestions.len()
            invariant
                j <= suggestions@.len(),
                ja == exists|m: int| 0 <= m < j && suggestions@[m].url@ == u@,
            decreases suggestions.len() - j,
        {
            if suggestions[j].url == *u {
                ja = true;
            }
            j = j + 1;
        }
        proof {
            lemma_urls_novas(s0, pre, u@);
            if ja {
                let m = choose|m: int| 0 <= m < suggestions@.len() && suggestions@[m].url@ == u@;
                assert(urls_de(suggestions@)[m] == u@);
            } else {
                assert forall|m: int| 0 <= m < urls_de(suggestions@).len() implies urls_de(suggestions@)[m] != u@ by {
                    assert(urls_de(suggestions@)[m] == suggestions@[m].url@);
                }
            }
        }
        if !ja {
            suggestions.push(found[i].clone_sug());
        }
        i = i + 1;
    }
    assert(f.take(f.len() as int) == f);
}

proof fn lemma_urls_novas(s0: Seq<Suggestion>, pre: Seq<Suggestion>, u: Seq<char>)
    ensures
        urls_de(s0 + novas(urls_de(s0), pre)).contains(u) <==> (urls_de(s0).contains(u) || urls_de(pre).contains(u)),
    decreases pre.len(),
{
    let n = novas(urls_de(s0), pre);
    if pre.len() == 0 {
        assert(s0 + n =~= s0);
    } else {
        let p = pre.drop_last();
        lemma_urls_novas(s0, p, u);
        let np = novas(urls_de(s0), p);
        assert(urls_de(pre) =~= urls_de(p).push(pre.last().url@));
        if n == np {
        } else {
            assert(s0 + n =~= (s0 + np).push(pre.last()));
            assert(urls_de(s0 + n) =~= urls_de(s0 + np).push(pre.last().url@));
        }
        lemma_seq_push_contains(urls_de(p), pre.last().url@, u);
        if n != np {
            lemma_seq_push_contains(urls_de(s0 + np), pre.last().url@, u);
        }
    }
}

proof fn lemma_seq_push_contains(s: Seq<Seq<char>>, x: Seq<char>, y: Seq<char>)
    ensures
        s.push(x).contains(y) <==> (s.contains(y) || y == x),
{
    if s.push(x).contains(y) && y != x {
        let m = choose|m: int| 0 <= m < s.push(x).len() && s.push(x)[m] == y;
        assert(s[m] == y);
    }
    if s.contains(y) {
        let m = choose|m: int| 0 <= m < s.len() && s[m] == y;
        assert(s.push(x)[m] == y);
    }
    if y == x {
        assert(s.push(x)[s.len() as int] == y);
    }
}

impl Suggestion {
    /// Copia da suxestión.
    pub fn clone_sug(&self) -> (r: Suggestion)
        ensures
            r.url@ == self.url@,
            r.nombre@ == self.nombre@,
            r.tipo_entidad == self.tipo_entidad,
            r.uri@ == self.uri@,
            r == *self,
    {
        Suggestion {
            url: self.url.clone(),
            nombre: self.nombre.clone(),
            tipo_entidad: self.tipo_entidad,
            uri: self.uri.clone(),
        }
    }
}

// ───────────────────────── Validación por CIF ─────────────────────────

/// Tope de fichas que se descargan para validar un CIF (rede de seguridade).
pub const MAX_FICHAS: usize = 8;

/// Urls das suxestións que son empresas (`tipo_entidad == 1`), en orde.
pub open spec fn urls_empresas_spec(s: Seq<Suggestion>) -> Seq<Seq<char>>
    decreases s.len(),
{
    if s.len() == 0 {
        Seq::empty()
    } else if s.last().tipo_entidad == 1 {
        urls_empresas_spec(s.drop_last()).push(s.last().url@)
    } else {
        urls_empresas_spec(s.drop_last())
    }
}

/// Vista dunha lista de cadeas.
pub open spec fn strs(v: Seq<String>) -> Seq<Seq<char>> {
    v.map_values(|s: String| s@)
}

/// Urls das suxestións que son empresas, en orde.
pub fn urls_empresas(s: &Vec<Suggestion>) -> (r: Vec<String>)
    ensures
        strs(r@) == urls_empresas_spec(s@),
{
    let mut out: Vec<String> = Vec::new();
    let mut i: usize = 0;
    while i < s.len()
        invariant
            i <= s@.len(),
            strs(out@) == urls_empresas_spec(s@.take(i as int)),
        decreases s.len() - i,
    {
        assert(s@.take(i + 1).drop_last() == s@.take(i as int));
        if s[i].tipo_entidad == 1 {
            let ghost old_out = out@;
            out.push(s[i].url.clone());
            assert(strs(out@) =~= strs(old_out).push(s@[i as int].url@));
        }
        i = i + 1;
    }
    assert(s@.take(s@.len() as int) == s@);
    out
}

/// Algunha suxestión coa url dada é unha empresa.
pub open spec fn es_empresa_spec(s: Seq<Suggestion>, url: Seq<char>) -> bool {
    exists|k: int| 0 <= k < s.len() && (#[trigger] s[k]).url@ == url && s[k].tipo_entidad == 1
}

/// Algunha suxestión coa url dada é unha empresa (só as empresas expoñen CIF).
pub fn es_empresa(s: &Vec<Suggestion>, url: &String) -> (r: bool)
    ensures
        r == es_empresa_spec(s@, url@),
{
    let mut i: usize = 0;
    while i < s.len()
        invariant
            i <= s@.len(),
            forall|k: int| 0 <= k < i ==> !((#[trigger] s@[k]).url@ == url@ && s@[k].tipo_entidad == 1),
        decreases s.len() - i,
    {
        if s[i].url == *url && s[i].tipo_entidad == 1 {
            return true;
        }
        i = i + 1;
    }
    false
}

/// As urls que se validan por CIF: as primeiras `MAX_FICHAS` das que son de
/// empresas, na súa orde.
pub open spec fn candidatos_spec(s: Seq<Suggestion>, urls: Seq<Seq<char>>, i: int) -> Seq<Seq<char>>
    decreases i,
{
    if i <= 0 {
        Seq::empty()
    } else {
        let prev = candidatos_spec(s, urls, i - 1);
        if prev.len() < MAX_FICHAS && es_empresa_spec(s, urls[i - 1]) {
            prev.push(urls[i - 1])
        } else {
            prev
        }
    }
}

/// Urls cuxa ficha se descarga para comparar o CIF: as das empresas, ata
/// `MAX_FICHAS`, na orde dada.
pub fn candidatos_cif(s: &Vec<Suggestion>, urls: &Vec<String>) -> (r: Vec<String>)
    ensures
        strs(r@) == candidatos_spec(s@, strs(urls@), urls@.len() as int),
        r@.len() <= MAX_FICHAS,
{
    let mut out: Vec<String> = Vec::new();
    let mut i: usize = 0;
    while i < urls.len()
        invariant
            i <= urls@.len(),
            strs(out@) == candidatos_spec(s@, strs(urls@), i as int),
            out@.len() <= MAX_FICHAS,
        decreases urls.len() - i,
    {
        assert(strs(urls@)[i as int] == urls@[i as int]@);
        if out.len() < MAX_FICHAS && es_empresa(s, &urls[i]) {
            let ghost old_out = out@;
            out.push(urls[i].clone());
            assert(strs(out@) =~= strs(old_out).push(urls@[i as int]@));
        }
        i = i + 1;
    }
    out
}

/// O CIF da ficha (non baleiro) coincide co NIF buscado, ambos normalizados.
pub open spec fn cif_coincide_spec(info_cif: Seq<char>, nif: Seq<char>) -> bool {
    info_cif.len() > 0 && nif_seq(info_cif) == nif_seq(nif)
}

/// O CIF da ficha (non baleiro) coincide co NIF buscado, ambos normalizados.
pub fn cif_coincide(info_cif: &str, nif: &str) -> (r: bool)
    ensures
        r == cif_coincide_spec(info_cif@, nif@),
{
    if info_cif.is_empty() {
        return false;
    }
    let a = normalize_nif(info_cif);
    let b = normalize_nif(nif);
    a == b
}

// ───────────────────────── Resumo ─────────────────────────

/// Desenlace do emparellamento dun adxudicatario.
#[derive(Debug, Clone, Copy, PartialEq, Eq, Structural)]
pub enum Desenlace {
    /// Vinculado automaticamente (único por nome ou validado por CIF).
    Vinculado,
    /// Deixado para revisión manual con candidatos plausibles.
    Revisar,
    /// Sen vínculo nin candidatos.
    SenMatch,
    /// Saltado porque datoscif non respondeu (non se grava nada).
    Saltado,
}

/// Un fallo de rede que deixou as buscas baleiras non é «sen match» (sería un
/// falso negativo): o adxudicatario sáltase.
pub open spec fn desenlace_spec(d: Desenlace, fallos_antes: u64, fallos_despois: u64) -> Desenlace {
    if fallos_despois > fallos_antes && d == Desenlace::SenMatch {
        Desenlace::Saltado
    } else {
        d
    }
}

/// Desenlace final dun adxudicatario: «sen match» pasa a «saltado» se houbo
/// fallos novos de datoscif durante a busca.
pub fn desenlace(d: Desenlace, fallos_antes: u64, fallos_despois: u64) -> (r: Desenlace)
    ensures
        r == desenlace_spec(d, fallos_antes, fallos_despois),
{
    if fallos_despois > fallos_antes && d == Desenlace::SenMatch {
        Desenlace::Saltado
    } else {
        d
    }
}

/// Conta o desenlace dun adxudicatario no resumo (sempre conta como procesado).
pub fn conta_desenlace(r: &mut EnrichResult, d: Desenlace)
    requires
        old(r).procesados < usize::MAX,
        old(r).vinculados < usize::MAX,
        old(r).a_revisar < usize::MAX,
        old(r).sen_match < usize::MAX,
    ensures
        final(r).procesados == old(r).procesados + 1,
        final(r).vinculados == old(r).vinculados + (if d == Desenlace::Vinculado { 1int } else { 0int }),
        final(r).a_revisar == old(r).a_revisar + (if d == Desenlace::Revisar { 1int } else { 0int }),
        final(r).sen_match == old(r).sen_match + (if d == Desenlace::SenMatch { 1int } else { 0int }),
        final(r).empresas_con_cargos == old(r).empresas_con_cargos,
        final(r).cargos == old(r).cargos,
        final(r).erros == old(r).erros,
        final(r).ute_membros == old(r).ute_membros,
        final(r).reimport == old(r).reimport,
{
    match d {
        Desenlace::Vinculado => r.vinculados = r.vinculados + 1,
        Desenlace::Revisar => r.a_revisar = r.a_revisar + 1,
        Desenlace::SenMatch => r.sen_match = r.sen_match + 1,
        Desenlace::Saltado => {},
    }
    r.procesados = r.procesados + 1;
}

/// Conta a descarga dos cargos dunha empresa: `Some(n)` se se gardaron `n`
/// cargos (unha empresa máis con cargos), `None` se houbo un erro.
pub fn conta_cargos(r: &mut EnrichResult, gardados: Option<usize>)
    requires
        old(r).erros < usize::MAX,
        old(r).empresas_con_cargos < usize::MAX,
        gardados matches Some(n) ==> old(r).cargos + n <= usize::MAX,
    ensures
        match gardados {
            Some(n) => final(r).cargos == old(r).cargos + n && final(r).empresas_con_cargos == old(r).empresas_con_cargos
                + 1 && final(r).erros == old(r).erros,
            None => final(r).erros == old(r).erros + 1 && final(r).cargos == old(r).cargos
                && final(r).empresas_con_cargos == old(r).empresas_con_cargos,
        },
        final(r).procesados == old(r).procesados,
        final(r).vinculados == old(r).vinculados,
        final(r).a_revisar == old(r).a_revisar,
        final(r).sen_match == old(r).sen_match,
        final(r).ute_membros == old(r).ute_membros,
        final(r).reimport == old(r).reimport,
{
    match gardados {
        Some(n) => {
            r.cargos = r.cargos + n;
            r.empresas_con_cargos = r.empresas_con_cargos + 1;
        },
        None => {
            r.erros = r.erros + 1;
        },
    }
}

/// Lei: a ficha coincide co NIF buscado igual se este vén con puntos, guións,
/// espazos ou minúsculas que xa normalizado; unha ficha sen CIF nunca coincide;
/// e a coincidencia é simétrica entre dous CIF non baleiros.
pub proof fn lemma_cif_coincide(info_cif: Seq<char>, nif: Seq<char>)
    requires
        ascii_seq(nif),
    ensures
        cif_coincide_spec(info_cif, nif) == cif_coincide_spec(info_cif, nif_seq(nif)),
        info_cif.len() == 0 ==> !cif_coincide_spec(info_cif, nif),
        info_cif.len() > 0 && nif.len() > 0 ==> (cif_coincide_spec(info_cif, nif) == cif_coincide_spec(nif, info_cif)),
{
    lemma_normalize_nif_ascii(nif);
}

/// Lei: un «sen match» nunca se rexistra se houbo fallos novos de datoscif
/// durante a busca (pasa a «saltado»), e os demais desenlaces non cambian.
pub proof fn lemma_desenlace(d: Desenlace, fallos_antes: u64, fallos_despois: u64)
    ensures
        fallos_despois > fallos_antes ==> desenlace_spec(d, fallos_antes, fallos_despois) != Desenlace::SenMatch,
        fallos_despois <= fallos_antes ==> desenlace_spec(d, fallos_antes, fallos_despois) == d,
        d != Desenlace::SenMatch ==> desenlace_spec(d, fallos_antes, fallos_despois) == d,
{
}

} // verus!
