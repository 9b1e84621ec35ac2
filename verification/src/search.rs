//! Licitacións dun organismo a partir das filas do JSON oculto `#resSearch`
//! do buscador: deduplicación por id e conversión ao rexistro do listado.

use vstd::prelude::*;
use crate::model::{ContractSummary, TipoContrato};
use crate::text::{trim, trim_str, chars_of};

verus! {

/// Fila crúa do JSON oculto `#resSearch`.
#[derive(Debug, Clone, Default)]
pub struct SearchRow {
    pub id: String,
    pub referencia: String,
    pub asunto: String,
    pub importe: String,
    pub estado: String,
    pub publicacion: String,
}

/// Ids das filas dadas.
pub open spec fn row_ids(rows: Seq<SearchRow>) -> Seq<Seq<char>> {
    rows.map_values(|r: SearchRow| r.id@)
}

/// As filas dadas conservando só a primeira aparición de cada id, na súa orde.
pub open spec fn dedup_rows(rows: Seq<SearchRow>) -> Seq<SearchRow>
    decreases rows.len(),
{
    if rows.len() == 0 {
        Seq::<SearchRow>::empty()
    } else if row_ids(rows.drop_last()).contains(rows.last().id@) {
        dedup_rows(rows.drop_last())
    } else {
        dedup_rows(rows.drop_last()).push(rows.last())
    }
}

/// O rexistro do listado dunha fila do buscador, do organismo importado.
pub open spec fn summary_of(r: SearchRow, org_id: Seq<char>, org_nome: Seq<char>, s: ContractSummary) -> bool {
    &&& s.id@ == r.id@
    &&& s.tipo == TipoContrato::Licitacion
    &&& s.referencia@ == r.referencia@
    &&& s.asunto@ == r.asunto@
    &&& s.importe@ == r.importe@
    &&& s.estado@ == r.estado@
    &&& s.publicacion@ == r.publicacion@
    &&& s.cod_organismo@ == org_id
    &&& s.organismo@ == org_nome
}

proof fn lemma_dedup_ids(rows: Seq<SearchRow>)
    ensures
        forall|k: int|
            0 <= k < dedup_rows(rows).len() ==> row_ids(rows).contains(#[trigger] dedup_rows(rows)[k].id@),
        forall|k: int|
            0 <= k < rows.len() ==> row_ids(dedup_rows(rows)).contains(#[trigger] rows[k].id@),
        forall|k: int, l: int|
            0 <= k < l < dedup_rows(rows).len() ==> dedup_rows(rows)[k].id@ != dedup_rows(rows)[l].id@,
    decreases rows.len(),
{
    if rows.len() > 0 {
        let p = rows.drop_last();
        lemma_dedup_ids(p);
        let d = dedup_rows(rows);
        let dp = dedup_rows(p);
        assert forall|k: int| 0 <= k < d.len() implies row_ids(rows).contains(#[trigger] d[k].id@) by {
            if k < dp.len() {
                assert(d[k] == dp[k]);
                let j = choose|j: int| 0 <= j < p.len() && row_ids(p)[j] == dp[k].id@;
                assert(row_ids(rows)[j] == row_ids(p)[j]);
            } else {
                assert(row_ids(rows)[rows.len() - 1] == rows.last().id@);
            }
        }
        assert forall|k: int| 0 <= k < rows.len() implies row_ids(d).contains(#[trigger] rows[k].id@) by {
            if k < p.len() {
                assert(p[k] == rows[k]);
                let j = choose|j: int| 0 <= j < dp.len() && row_ids(dp)[j] == p[k].id@;
                assert(row_ids(d)[j] == row_ids(dp)[j]);
            } else if row_ids(p).contains(rows.last().id@) {
                let j = choose|j: int| 0 <= j < p.len() && row_ids(p)[j] == rows.last().id@;
                assert(p[j].id@ == rows.last().id@);
                let m = choose|m: int| 0 <= m < dp.len() && row_ids(dp)[m] == p[j].id@;
                assert(row_ids(d)[m] == row_ids(dp)[m]);
            } else {
                assert(row_ids(d)[d.len() - 1] == rows.last().id@);
            }
        }
        assert forall|k: int, l: int| 0 <= k < l < d.len() implies d[k].id@ != d[l].id@ by {
            if l >= dp.len() {
                assert(!row_ids(p).contains(rows.last().id@));
                assert(row_ids(p).contains(dp[k].id@));
            }
        }
    }
}

/// A fila `j` é a primeira co seu id.
pub open spec fn primeira_fila_de(rows: Seq<SearchRow>, j: int) -> bool {
    forall|i: int| 0 <= i < j ==> (#[trigger] rows[i]).id@ != rows[j].id@
}

/// A fila `x` é a primeira fila de `rows` co seu id.
pub open spec fn fila_orixe(rows: Seq<SearchRow>, x: SearchRow) -> bool {
    exists|j: int| 0 <= j < rows.len() && primeira_fila_de(rows, j) && x == #[trigger] rows[j]
}

proof fn lemma_dedup_primeira(rows: Seq<SearchRow>)
    ensures
        forall|k: int| 0 <= k < dedup_rows(rows).len() ==> fila_orixe(rows, #[trigger] dedup_rows(rows)[k]),
    decreases rows.len(),
{
    if rows.len() > 0 {
        let p = rows.drop_last();
        lemma_dedup_primeira(p);
        let d = dedup_rows(rows);
        let dp = dedup_rows(p);
        assert forall|k: int| 0 <= k < d.len() implies fila_orixe(rows, #[trigger] d[k]) by {
            if k < dp.len() {
                assert(d[k] == dp[k]);
                assert(fila_orixe(p, dp[k]));
                let j = choose|j: int| 0 <= j < p.len() && primeira_fila_de(p, j) && dp[k] == #[trigger] p[j];
                assert(rows[j] == p[j]);
                assert forall|i: int| 0 <= i < j implies (#[trigger] rows[i]).id@ != rows[j].id@ by {
                    assert(rows[i] == p[i]);
                }
                assert(primeira_fila_de(rows, j));
            } else {
                let j = rows.len() - 1;
                assert(!row_ids(p).contains(rows.last().id@));
                assert(d == dp.push(rows.last()));
                assert(d[k] == rows[j]);
                assert forall|i: int| 0 <= i < j implies (#[trigger] rows[i]).id@ != rows[j].id@ by {
                    if rows[i].id@ == rows[j].id@ {
                        assert(row_ids(p)[i] == rows[i].id@);
                        assert(row_ids(p).contains(rows.last().id@));
                    }
                }
                assert(primeira_fila_de(rows, j));
            }
        }
    }
}

/// Converte as filas do buscador en rexistros do listado (tipo licitación),
/// conservando só a primeira aparición de cada id: o servidor pode repetir un
/// contrato (unha entrada por lote). O organismo fíxase ao da importación.
pub fn licitacions_de_resultados(rows: &Vec<SearchRow>, org_id: &String, org_nome: &String) -> (r: Vec<ContractSummary>)
    ensures
        r@.len() == dedup_rows(rows@).len(),
        forall|k: int|
            0 <= k < r@.len() ==> summary_of(dedup_rows(rows@)[k], org_id@, org_nome@, #[trigger] r@[k]),
        forall|k: int, l: int| 0 <= k < l < r@.len() ==> r@[k].id@ != r@[l].id@,
        forall|k: int| 0 <= k < rows@.len() ==> exists|j: int| 0 <= j < r@.len() && r@[j].id@ == #[trigger] rows@[k].id@,
        forall|k: int| 0 <= k < r@.len() ==> exists|j: int| 0 <= j < rows@.len() && primeira_fila_de(rows@, j) && #[trigger] r@[k].id@ == rows@[j].id@
            && r@[k].referencia@ == rows@[j].referencia@ && r@[k].asunto@ == rows@[j].asunto@ && r@[k].importe@
            == rows@[j].importe@ && r@[k].estado@ == rows@[j].estado@ && r@[k].publicacion@ == rows@[j].publicacion@
            && r@[k].cod_organismo@ == org_id@ && r@[k].organismo@ == org_nome@ && r@[k].tipo == TipoContrato::Licitacion,
{
    let mut out: Vec<ContractSummary> = Vec::new();
    let mut i: usize = 0;
    while i < rows.len()
        invariant
            i <= rows@.len(),
            out@.len() == dedup_rows(rows@.take(i as int)).len(),
            forall|k: int|
                0 <= k < out@.len() ==> summary_of(dedup_rows(rows@.take(i as int))[k], org_id@, org_nome@, #[trigger] out@[k]),
        decreases rows.len() - i,
    {
        let r = &rows[i];
        let ghost pre = rows@.take(i as int);
        assert(rows@.take(i + 1).drop_last() == pre);
        let mut visto = false;
        let mut j: usize = 0;
        while j < out.len()
            invariant
                j <= out@.len(),
                out@.len() == dedup_rows(pre).len(),
                visto == exists|m: int| 0 <= m < j && out@[m].id@ == r.id@,
                forall|k: int|
                    0 <= k < out@.len() ==> summary_of(dedup_rows(pre)[k], org_id@, org_nome@, #[trigger] out@[k]),
            decreases out.len() - j,
        {
            if out[j].id == r.id {
                visto = true;
            }
            j = j + 1;
        }
        proof {
            lemma_dedup_ids(pre);
            let d = dedup_rows(pre);
            if visto {
                let m = choose|m: int| 0 <= m < out@.len() && out@[m].id@ == r.id@;
                assert(summary_of(d[m], org_id@, org_nome@, out@[m]));
                assert(row_ids(pre).contains(r.id@));
            } else if row_ids(pre).contains(r.id@) {
                let k = choose|k: int| 0 <= k < pre.len() && row_ids(pre)[k] == r.id@;
                assert(row_ids(d).contains(pre[k].id@));
                let m = choose|m: int| 0 <= m < d.len() && row_ids(d)[m] == pre[k].id@;
                assert(summary_of(d[m], org_id@, org_nome@, out@[m]));
                assert(false);
            }
        }
        if !visto {
            out.push(ContractSummary {
                id: r.id.clone(),
                tipo: TipoContrato::Licitacion,
                referencia: r.referencia.clone(),
                asunto: r.asunto.clone(),
                importe: r.importe.clone(),
                estado: r.estado.clone(),
                publicacion: r.publicacion.clone(),
                cod_organismo: org_id.clone(),
                organismo: org_nome.clone(),
            });
        }
        i = i + 1;
    }
    proof {
        assert(rows@.take(rows@.len() as int) == rows@);
        lemma_dedup_ids(rows@);
        let d = dedup_rows(rows@);
        assert forall|k: int, l: int| 0 <= k < l < out@.len() implies out@[k].id@ != out@[l].id@ by {
            assert(summary_of(d[k], org_id@, org_nome@, out@[k]));
            assert(summary_of(d[l], org_id@, org_nome@, out@[l]));
        }
        assert forall|k: int| 0 <= k < rows@.len() implies exists|j: int| 0 <= j < out@.len() && out@[j].id@ == #[trigger] rows@[k].id@ by {
            assert(row_ids(d).contains(rows@[k].id@));
            let m = choose|m: int| 0 <= m < d.len() && row_ids(d)[m] == rows@[k].id@;
            assert(summary_of(d[m], org_id@, org_nome@, out@[m]));
        }
        lemma_dedup_primeira(rows@);
        assert forall|k: int| 0 <= k < out@.len() implies exists|j: int| 0 <= j < rows@.len() && primeira_fila_de(rows@, j) && #[trigger] out@[k].id@ == rows@[j].id@
            && out@[k].referencia@ == rows@[j].referencia@ && out@[k].asunto@ == rows@[j].asunto@ && out@[k].importe@
            == rows@[j].importe@ && out@[k].estado@ == rows@[j].estado@ && out@[k].publicacion@ == rows@[j].publicacion@
            && out@[k].cod_organismo@ == org_id@ && out@[k].organismo@ == org_nome@ && out@[k].tipo == TipoContrato::Licitacion by {
            assert(summary_of(d[k], org_id@, org_nome@, out@[k]));
            assert(fila_orixe(rows@, d[k]));
            let j = choose|j: int| 0 <= j < rows@.len() && primeira_fila_de(rows@, j) && d[k] == #[trigger] rows@[j];
        }
    }
    out
}

/// Valor do atributo `value` do primeiro elemento `#resSearch` do documento
/// (baleiro se non ten o atributo; `None` se non hai tal elemento).
pub uninterp spec fn res_search_value(html: Seq<char>) -> Option<Seq<char>>;

/// `scraper::Html::parse_document`, `Selector::parse("#resSearch")`,
/// `Html::select` e `Element::attr("value")`: o atributo `value` do primeiro
/// elemento con id `resSearch` do documento HTML.
#[verifier::external_body]
fn res_search_attr(html: &str) -> (r: Option<String>)
    ensures
        match r {
            Some(v) => res_search_value(html@) == Some(v@),
            None => res_search_value(html@) is None,
        },
{
    let doc = scraper::Html::parse_document(html);
    let sel = scraper::Selector::parse("#resSearch").ok()?;
    doc.select(&sel).next().map(|el| el.value().attr("value").unwrap_or("").to_string())
}

/// Texto JSON das filas a partir do valor de `#resSearch`: o valor recortado, se
/// non está baleiro nin é `[]`.
pub open spec fn json_de_valor_spec(v: Option<Seq<char>>) -> Option<Seq<char>> {
    match v {
        None => None,
        Some(x) => if trim(x).len() == 0 || trim(x) == "[]"@ {
            None
        } else {
            Some(trim(x))
        },
    }
}

/// Texto JSON das filas a partir do valor de `#resSearch` (`None` se non hai
/// filas: sen elemento, valor baleiro ou `[]`).
pub fn json_de_valor(v: &Option<String>) -> (r: Option<String>)
    ensures
        match r {
            Some(t) => json_de_valor_spec(opt_str(*v)) == Some(t@),
            None => json_de_valor_spec(opt_str(*v)) is None,
        },
{
    match v {
        None => None,
        Some(x) => {
            let t = trim_str(x.as_str());
            let tv = chars_of(t.as_str());
            let vacio = chars_of("[]");
            if t.as_str().is_empty() || crate::model::chars_eq(&tv, &vacio) {
                None
            } else {
                Some(t)
            }
        },
    }
}

/// Vista dunha cadea opcional.
pub open spec fn opt_str(o: Option<String>) -> Option<Seq<char>> {
    match o {
        Some(s) => Some(s@),
        None => None,
    }
}

/// Texto JSON das filas do buscador, extraído do input oculto `#resSearch`
/// (`None` se non hai filas).
pub fn parse_results(html: &str) -> (r: Option<String>)
    ensures
        match r {
            Some(t) => json_de_valor_spec(res_search_value(html@)) == Some(t@),
            None => json_de_valor_spec(res_search_value(html@)) is None,
        },
{
    let v = res_search_attr(html);
    json_de_valor(&v)
}

} // verus!
