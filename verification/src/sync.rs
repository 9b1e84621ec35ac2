//! Decisións da importación incremental por organismo: de que licitacións se
//! descarga o detalle e o resumo da importación.

use vstd::prelude::*;
use crate::model::{is_estado_terminal, is_terminal_seq, lemma_estados_terminais};
use crate::text::{is_infix, str_lowercase};

verus! {

/// Resumo dunha importación.
#[derive(Debug, Clone, Default)]
pub struct SyncResult {
    /// Licitacións atopadas no organismo.
    pub licitacions: usize,
    pub novos: usize,
    pub actualizados: usize,
    pub saltados: usize,
    pub detalles_descargados: usize,
    /// Contratos menores importados (do ano escollido).
    pub menores: usize,
    pub erros: usize,
}

/// Que facer cunha licitación segundo o seu estado gardado.
#[derive(Debug, Clone, Copy, PartialEq, Eq, Structural)]
pub enum Accion {
    /// Non existía: descárgase o detalle.
    Novo,
    /// Existía nun estado aínda non terminal: vólvese descargar o detalle.
    Actualizar,
    /// Xa estaba nun estado terminal (resolto): non se descarga.
    Saltar,
}

/// Acción que corresponde a un estado previo.
pub open spec fn accion_spec(previo: Option<Seq<char>>) -> Accion {
    match previo {
        None => Accion::Novo,
        Some(p) => if is_terminal_seq(p) {
            Accion::Saltar
        } else {
            Accion::Actualizar
        },
    }
}

pub open spec fn opt_view(o: Option<String>) -> Option<Seq<char>> {
    match o {
        Some(s) => Some(s@),
        None => None,
    }
}

/// Decide que facer cunha licitación a partir do seu estado previo na BD
/// (`None` se o contrato non existía).
pub fn clasifica(previo: &Option<String>) -> (r: Accion)
    ensures
        r == accion_spec(opt_view(*previo)),
{
    match previo {
        None => Accion::Novo,
        Some(p) => if is_estado_terminal(p.as_str()) {
            Accion::Saltar
        } else {
            Accion::Actualizar
        },
    }
}

/// Número de licitacións con cada acción entre as primeiras `i`.
pub open spec fn conta(previos: Seq<Option<String>>, a: Accion, i: int) -> nat
    decreases i,
{
    if i <= 0 {
        0
    } else {
        conta(previos, a, i - 1) + (if accion_spec(opt_view(previos[i - 1])) == a {
            1nat
        } else {
            0nat
        })
    }
}

/// Ids das primeiras `i` licitacións das que hai que descargar o detalle.
pub open spec fn a_detallar(ids: Seq<String>, previos: Seq<Option<String>>, i: int) -> Seq<String>
    decreases i,
{
    if i <= 0 {
        Seq::<String>::empty()
    } else if accion_spec(opt_view(previos[i - 1])) == Accion::Saltar {
        a_detallar(ids, previos, i - 1)
    } else {
        a_detallar(ids, previos, i - 1).push(ids[i - 1])
    }
}

/// Decide de que licitacións descargar o detalle (as novas e as que aínda non
/// estaban nun estado terminal) e conta cantas hai de cada clase.
/// `previos[i]` é o estado gardado da licitación `ids[i]`.
pub fn planifica(ids: &Vec<String>, previos: &Vec<Option<String>>) -> (r: (Vec<String>, SyncResult))
    requires
        ids@.len() == previos@.len(),
    ensures
        r.0@ == a_detallar(ids@, previos@, ids@.len() as int),
        r.1.licitacions == ids@.len(),
        r.1.novos == conta(previos@, Accion::Novo, ids@.len() as int),
        r.1.actualizados == conta(previos@, Accion::Actualizar, ids@.len() as int),
        r.1.saltados == conta(previos@, Accion::Saltar, ids@.len() as int),
        r.1.novos + r.1.actualizados + r.1.saltados == r.1.licitacions,
        r.0@.len() == r.1.novos + r.1.actualizados,
        r.1.detalles_descargados == 0 && r.1.menores == 0 && r.1.erros == 0,
{
    let mut to_detail: Vec<String> = Vec::new();
    let mut novos: usize = 0;
    let mut actualizados: usize = 0;
    let mut saltados: usize = 0;
    let mut i: usize = 0;
    while i < ids.len()
        invariant
            ids@.len() == previos@.len(),
            i <= ids@.len(),
            to_detail@ == a_detallar(ids@, previos@, i as int),
            novos == conta(previos@, Accion::Novo, i as int),
            actualizados == conta(previos@, Accion::Actualizar, i as int),
            saltados == conta(previos@, Accion::Saltar, i as int),
            novos + actualizados + saltados == i,
            to_detail@.len() == novos + actualizados,
        decreases ids.len() - i,
    {
        match clasifica(&previos[i]) {
            Accion::Novo => {
                novos = novos + 1;
                to_detail.push(ids[i].clone());
            },
            Accion::Actualizar => {
                actualizados = actualizados + 1;
                to_detail.push(ids[i].clone());
            },
            Accion::Saltar => {
                saltados = saltados + 1;
            },
        }
        i = i + 1;
    }
    let r = SyncResult {
        licitacions: ids.len(),
        novos,
        actualizados,
        saltados,
        detalles_descargados: 0,
        menores: 0,
        erros: 0,
    };
    (to_detail, r)
}

/// Conta o resultado da descarga do detalle dunha licitación: `true` se se
/// descargou e gardou, `false` se houbo un erro.
pub fn conta_detalle(r: &mut SyncResult, ok: bool)
    requires
        old(r).detalles_descargados < usize::MAX,
        old(r).erros < usize::MAX,
    ensures
        final(r).detalles_descargados == old(r).detalles_descargados + (if ok { 1int } else { 0int }),
        final(r).erros == old(r).erros + (if ok { 0int } else { 1int }),
        final(r).licitacions == old(r).licitacions,
        final(r).novos == old(r).novos,
        final(r).actualizados == old(r).actualizados,
        final(r).saltados == old(r).saltados,
        final(r).menores == old(r).menores,
{
    if ok {
        r.detalles_descargados = r.detalles_descargados + 1;
    } else {
        r.erros = r.erros + 1;
    }
}

/// Cantos resultados da descarga de detalles son `v`.
pub open spec fn cantos(oks: Seq<bool>, v: bool) -> nat
    decreases oks.len(),
{
    if oks.len() == 0 {
        0
    } else {
        cantos(oks.drop_last(), v) + (if oks.last() == v {
            1nat
        } else {
            0nat
        })
    }
}

/// Conta os resultados das descargas de detalle, na orde en que se fixeron
/// (`true` descargado e gardado, `false` erro): suma os éxitos a
/// `detalles_descargados` e os fallos a `erros`, sen tocar o resto.
pub fn conta_detalles(r: &mut SyncResult, oks: &Vec<bool>)
    requires
        old(r).detalles_descargados + oks@.len() <= usize::MAX,
        old(r).erros + oks@.len() <= usize::MAX,
    ensures
        final(r).detalles_descargados == old(r).detalles_descargados + cantos(oks@, true),
        final(r).erros == old(r).erros + cantos(oks@, false),
        final(r).detalles_descargados + final(r).erros == old(r).detalles_descargados + old(r).erros + oks@.len(),
        final(r).licitacions == old(r).licitacions,
        final(r).novos == old(r).novos,
        final(r).actualizados == old(r).actualizados,
        final(r).saltados == old(r).saltados,
        final(r).menores == old(r).menores,
{
    let ghost r0 = *r;
    let mut i: usize = 0;
    while i < oks.len()
        invariant
            i <= oks@.len(),
            r0.detalles_descargados + oks@.len() <= usize::MAX,
            r0.erros + oks@.len() <= usize::MAX,
            r.detalles_descargados == r0.detalles_descargados + cantos(oks@.take(i as int), true),
            r.erros == r0.erros + cantos(oks@.take(i as int), false),
            cantos(oks@.take(i as int), true) + cantos(oks@.take(i as int), false) == i,
            r.licitacions == r0.licitacions,
            r.novos == r0.novos,
            r.actualizados == r0.actualizados,
            r.saltados == r0.saltados,
            r.menores == r0.menores,
        decreases oks.len() - i,
    {
        assert(oks@.take(i + 1).drop_last() == oks@.take(i as int));
        conta_detalle(r, oks[i]);
        i = i + 1;
    }
    assert(oks@.take(oks@.len() as int) == oks@);
}

/// Unha importación que descarga o detalle de todas as licitacións planificadas
/// conta cada unha unha vez: descargados máis erros son as novas máis as
/// actualizadas.
pub proof fn lemma_importacion_completa(ids: Seq<String>, previos: Seq<Option<String>>, oks: Seq<bool>)
    requires
        ids.len() == previos.len(),
        oks.len() == a_detallar(ids, previos, ids.len() as int).len(),
    ensures
        cantos(oks, true) + cantos(oks, false) == conta(previos, Accion::Novo, ids.len() as int) + conta(
            previos,
            Accion::Actualizar,
            ids.len() as int,
        ),
{
    lemma_cantos(oks);
    lemma_a_detallar_len(ids, previos, ids.len() as int);
}

proof fn lemma_cantos(oks: Seq<bool>)
    ensures
        cantos(oks, true) + cantos(oks, false) == oks.len(),
    decreases oks.len(),
{
    if oks.len() > 0 {
        lemma_cantos(oks.drop_last());
    }
}

proof fn lemma_a_detallar_len(ids: Seq<String>, previos: Seq<Option<String>>, i: int)
    requires
        0 <= i <= previos.len(),
    ensures
        a_detallar(ids, previos, i).len() == conta(previos, Accion::Novo, i) + conta(previos, Accion::Actualizar, i),
    decreases i,
{
    if i > 0 {
        lemma_a_detallar_len(ids, previos, i - 1);
    }
}

/// Lei: unha licitación gardada nun estado cuxo texto en minúsculas contén
/// «formaliz», «deserto», «anulado», «desestim» ou «resolto» sáltase (non se
/// volve descargar); gardada noutro estado actualízase, e se non estaba gardada
/// é nova.
pub proof fn lemma_accion_por_estado(previo: Option<Seq<char>>)
    ensures
        previo is None ==> accion_spec(previo) == Accion::Novo,
        previo matches Some(p) ==> (accion_spec(previo) == Accion::Saltar <==> (is_infix(str_lowercase(p), "formaliz"@)
            || is_infix(str_lowercase(p), "deserto"@) || is_infix(str_lowercase(p), "anulado"@) || is_infix(
            str_lowercase(p),
            "desestim"@,
        ) || is_infix(str_lowercase(p), "resolto"@))),
        previo matches Some(p) ==> accion_spec(previo) != Accion::Novo,
{
    match previo {
        Some(p) => lemma_estados_terminais(p),
        None => {},
    }
}

} // verus!
