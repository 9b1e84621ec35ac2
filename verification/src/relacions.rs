//! Relacións entre razóns sociais: as tramas son as compoñentes conexas do
//! grafo empresa↔empresa no que unha aresta é a coparticipación nunha mesma UTE
//! adxudicataria.

use vstd::prelude::*;
use crate::model::EmpresaNodo;
use crate::orde::{lex_le, lex_le_exec, lemma_lex_total, lemma_lex_trans, lemma_lex_refl, perm_of, perm_tail, lemma_perm_tail_insert, lemma_perm_tail_done};
use crate::text::{str_lowercase, lowercase_str, chars_of};

verus! {

// ───────────────────────── Compoñentes conexas ─────────────────────────

/// A posición `(u, j)` vai antes de `(pu, pj)` na orde de procesamento.
pub open spec fn before(u: int, j: int, pu: int, pj: int) -> bool {
    u < pu || (u == pu && j < pj)
}

/// Unha etiquetaxe dos nós que dá a mesma etiqueta a todos os nós de cada grupo
/// (ata a posición `(pu, pj)`, exclusive).
pub open spec fn respects_groups(lab: spec_fn(int) -> int, mids: Seq<Vec<usize>>, pu: int, pj: int) -> bool {
    forall|u: int, j: int|
        0 <= u < mids.len() && 0 <= j < mids[u]@.len() && before(u, j, pu, pj) ==> lab(
            #[trigger] mids[u]@[j] as int,
        ) == lab(mids[u]@[0] as int)
}

/// A etiqueta de compoñente `comp` é a máis fina posible: dous nós coa mesma
/// compoñente teñen a mesma etiqueta en calquera etiquetaxe que respecte os grupos.
pub open spec fn finest(comp: Seq<usize>, mids: Seq<Vec<usize>>, pu: int, pj: int) -> bool {
    forall|lab: spec_fn(int) -> int| #[trigger] respects_groups(lab, mids, pu, pj) ==>
        forall|x: int, y: int|
            0 <= x < comp.len() && 0 <= y < comp.len() && comp[x] == comp[y] ==> lab(x) == lab(y)
}

/// Etiqueta de compoñente como función sobre os enteiros.
pub open spec fn comp_fn(comp: Seq<usize>) -> spec_fn(int) -> int {
    |x: int| if 0 <= x < comp.len() { comp[x] as int } else { -1 - x }
}

proof fn lemma_respects_step(lab: spec_fn(int) -> int, mids: Seq<Vec<usize>>, u: int, j: int)
    requires
        0 <= u < mids.len(),
        0 <= j < mids[u]@.len(),
        respects_groups(lab, mids, u, j + 1),
    ensures
        respects_groups(lab, mids, u, j),
        lab(mids[u]@[j] as int) == lab(mids[u]@[0] as int),
{
}

/// Compoñentes conexas de `n` nós unidos en grupos (cada grupo une os seus nós
/// co primeiro): a cada nó asígnaselle a etiqueta dun nó da súa compoñente, de
/// xeito que todos os nós dun grupo comparten etiqueta e dous nós comparten
/// etiqueta só se están conectados (son inseparables por calquera etiquetaxe que
/// respecte os grupos).
pub fn componentes(n: usize, mids: &Vec<Vec<usize>>) -> (comp: Vec<usize>)
    requires
        forall|u: int, j: int| 0 <= u < mids@.len() && 0 <= j < mids@[u]@.len() ==> #[trigger] mids@[u]@[j] < n,
    ensures
        comp@.len() == n,
        forall|x: int| 0 <= x < n ==> (#[trigger] comp@[x]) < n,
        forall|x: int| 0 <= x < n ==> comp@[(#[trigger] comp@[x]) as int] == comp@[x],
        respects_groups(comp_fn(comp@), mids@, mids@.len() as int, 0),
        finest(comp@, mids@, mids@.len() as int, 0),
{
    let mut comp: Vec<usize> = Vec::new();
    let mut i: usize = 0;
    while i < n
        invariant
            i <= n,
            comp@.len() == i,
            forall|x: int| 0 <= x < i ==> #[trigger] comp@[x] == x,
        decreases n - i,
    {
        comp.push(i);
        i = i + 1;
    }
    let mut u: usize = 0;
    while u < mids.len()
        invariant
            u <= mids@.len(),
            comp@.len() == n,
            forall|uu: int, j: int| 0 <= uu < mids@.len() && 0 <= j < mids@[uu]@.len() ==> #[trigger] mids@[uu]@[j] < n,
            forall|x: int| 0 <= x < n ==> (#[trigger] comp@[x]) < n,
            forall|x: int| 0 <= x < n ==> comp@[(#[trigger] comp@[x]) as int] == comp@[x],
            respects_groups(comp_fn(comp@), mids@, u as int, 0),
            finest(comp@, mids@, u as int, 0),
        decreases mids.len() - u,
    {
        let len_u = mids[u].len();
        let mut k: usize = 0;
        proof {
            assert forall|lab: spec_fn(int) -> int| #[trigger] respects_groups(lab, mids@, u as int, 0)
                <==> respects_groups(lab, mids@, u as int, k as int) by {}
        }
        while k < len_u
            invariant
                u < mids@.len(),
                len_u == mids@[u as int]@.len(),
                k <= len_u,
                comp@.len() == n,
                forall|uu: int, j: int| 0 <= uu < mids@.len() && 0 <= j < mids@[uu]@.len() ==> #[trigger] mids@[uu]@[j] < n,
                forall|x: int| 0 <= x < n ==> (#[trigger] comp@[x]) < n,
                forall|x: int| 0 <= x < n ==> comp@[(#[trigger] comp@[x]) as int] == comp@[x],
                respects_groups(comp_fn(comp@), mids@, u as int, k as int),
                finest(comp@, mids@, u as int, k as int),
            decreases len_u - k,
        {
            let a = mids[u][0];
            let b = mids[u][k];
            let la = comp[a];
            let lb = comp[b];
            let ghost old_comp = comp@;
            let mut j: usize = 0;
            while j < n
                invariant
                    j <= n,
                    comp@.len() == n,
                    a < n && b < n,
                    la == old_comp[a as int],
                    lb == old_comp[b as int],
                    la < n,
                    forall|x: int| 0 <= x < j ==> #[trigger] comp@[x] == (if old_comp[x] == lb { la } else { old_comp[x] }),
                    forall|x: int| j <= x < n ==> #[trigger] comp@[x] == old_comp[x],
                    forall|x: int| 0 <= x < n ==> (#[trigger] old_comp[x]) < n,
                    forall|x: int| 0 <= x < n ==> old_comp[(#[trigger] old_comp[x]) as int] == old_comp[x],
                decreases n - j,
            {
                if comp[j] == lb {
                    comp.set(j, la);
                }
                j = j + 1;
            }
            proof {
                assert forall|x: int| 0 <= x < n implies comp@[(#[trigger] comp@[x]) as int] == comp@[x] by {
                    assert(old_comp[la as int] == la);
                    assert(old_comp[old_comp[x] as int] == old_comp[x]);
                }
                assert forall|uu: int, jj: int|
                    0 <= uu < mids@.len() && 0 <= jj < mids@[uu]@.len() && before(uu, jj, u as int, k + 1) implies comp_fn(comp@)(
                    #[trigger] mids@[uu]@[jj] as int) == comp_fn(comp@)(mids@[uu]@[0] as int) by {
                    if before(uu, jj, u as int, k as int) {
                        assert(comp_fn(old_comp)(mids@[uu]@[jj] as int) == comp_fn(old_comp)(mids@[uu]@[0] as int));
                    }
                }
                assert forall|lab: spec_fn(int) -> int| #[trigger] respects_groups(lab, mids@, u as int, k + 1) implies
                    forall|x: int, y: int|
                        0 <= x < comp@.len() && 0 <= y < comp@.len() && comp@[x] == comp@[y] ==> lab(x) == lab(y) by {
                    lemma_respects_step(lab, mids@, u as int, k as int);
                    assert(lab(b as int) == lab(a as int));
                    assert forall|x: int, y: int|
                        0 <= x < comp@.len() && 0 <= y < comp@.len() && comp@[x] == comp@[y] implies lab(x) == lab(y) by {
                        if old_comp[x] == old_comp[y] {
                        } else if old_comp[x] == la || old_comp[x] == lb {
                            assert(lab(x) == lab(a as int) || lab(x) == lab(b as int));
                        } else {
                            assert(comp@[x] == old_comp[x]);
                        }
                    }
                }
            }
            k = k + 1;
        }
        proof {
            assert forall|lab: spec_fn(int) -> int| #[trigger] respects_groups(lab, mids@, u + 1, 0)
                <==> respects_groups(lab, mids@, u as int, len_u as int) by {
                if respects_groups(lab, mids@, u as int, len_u as int) {
                    assert forall|uu: int, j: int|
                        0 <= uu < mids@.len() && 0 <= j < mids@[uu]@.len() && before(uu, j, u + 1, 0) implies lab(
                        #[trigger] mids@[uu]@[j] as int) == lab(mids@[uu]@[0] as int) by {
                        assert(before(uu, j, u as int, len_u as int));
                    }
                }
            }
            assert forall|uu: int, j: int|
                0 <= uu < mids@.len() && 0 <= j < mids@[uu]@.len() && before(uu, j, u + 1, 0) implies comp_fn(comp@)(
                #[trigger] mids@[uu]@[j] as int) == comp_fn(comp@)(mids@[uu]@[0] as int) by {
                assert(before(uu, j, u as int, len_u as int));
            }
        }
        u = u + 1;
    }
    comp
}

// ───────────────────────── UTE dos contratos ─────────────────────────

/// Fila da composición das UTE dos contratos filtrados: unha por empresa membro,
/// ordenadas por contrato e UTE. `ekey` identifica a empresa membro (o seu CIF
/// ou, se non o hai, a clave normalizada do nome).
#[derive(Debug, Clone, Default)]
pub struct UteMembroFila {
    pub contract_id: String,
    pub ute_key: String,
    pub ute_nome: String,
    pub ekey: String,
    pub membro_nome: String,
    pub asunto: String,
    pub data_iso: String,
}

/// Unha UTE dun contrato cos seus membros `(clave de empresa, nome)`. `fila` é a
/// posición da súa primeira fila na entrada.
#[derive(Debug, Clone, Default)]
pub struct UteGrupo {
    pub contract_id: String,
    pub nome: String,
    pub asunto: String,
    pub data_iso: String,
    pub fila: usize,
    pub membros: Vec<(String, String)>,
}

/// As dúas filas son da mesma UTE do mesmo contrato.
pub open spec fn same_ute(a: UteMembroFila, b: UteMembroFila) -> bool {
    a.contract_id@ == b.contract_id@ && a.ute_key@ == b.ute_key@
}

/// A fila `i` abre unha UTE nova (é a primeira ou cambia de contrato ou de UTE).
pub open spec fn is_start(f: Seq<UteMembroFila>, i: int) -> bool {
    i == 0 || !same_ute(f[i], f[i - 1])
}

/// Fin (exclusivo) das filas do grupo `g`.
pub open spec fn group_end(f: Seq<UteMembroFila>, gs: Seq<UteGrupo>, g: int) -> int {
    if g + 1 < gs.len() {
        gs[g + 1].fila as int
    } else {
        f.len() as int
    }
}

/// O grupo `g` recolle exactamente as filas `[fila, fin)` dunha mesma UTE.
pub open spec fn group_ok(f: Seq<UteMembroFila>, gs: Seq<UteGrupo>, g: int) -> bool {
    let st = gs[g].fila as int;
    let en = group_end(f, gs, g);
    &&& 0 <= st < en <= f.len()
    &&& is_start(f, st)
    &&& forall|i: int| st < i < en ==> !is_start(f, i)
    &&& gs[g].contract_id@ == f[st].contract_id@
    &&& gs[g].nome@ == f[st].ute_nome@
    &&& gs[g].asunto@ == f[st].asunto@
    &&& gs[g].data_iso@ == f[st].data_iso@
    &&& gs[g].membros@.len() == en - st
    &&& forall|j: int|
        0 <= j < en - st ==> (#[trigger] gs[g].membros@[j]).0@ == f[st + j].ekey@
            && gs[g].membros@[j].1@ == f[st + j].membro_nome@
}

/// Particións das filas en UTE: grupos consecutivos que cobren todas as filas.
pub open spec fn agrupadas(f: Seq<UteMembroFila>, gs: Seq<UteGrupo>) -> bool {
    &&& (f.len() == 0 <==> gs.len() == 0)
    &&& gs.len() > 0 ==> gs[0].fila == 0
    &&& forall|g: int| 0 <= g < gs.len() ==> #[trigger] group_ok(f, gs, g)
}

/// Agrupa as filas consecutivas da mesma UTE dun contrato nun único grupo cos
/// seus membros, na orde da entrada.
pub fn agrupa_filas(filas: &Vec<UteMembroFila>) -> (r: Vec<UteGrupo>)
    ensures
        agrupadas(filas@, r@),
{
    let mut out: Vec<UteGrupo> = Vec::new();
    let n = filas.len();
    if n == 0 {
        return out;
    }
    let mut st: usize = 0;
    let mut membros: Vec<(String, String)> = Vec::new();
    let mut i: usize = 0;
    while i < n
        invariant
            n == filas@.len(),
            0 < n,
            st <= i <= n,
            st < n,
            is_start(filas@, st as int),
            forall|m: int| st < m < i ==> !is_start(filas@, m),
            membros@.len() == i - st,
            forall|j: int|
                0 <= j < i - st ==> (#[trigger] membros@[j]).0@ == filas@[st + j].ekey@
                    && membros@[j].1@ == filas@[st + j].membro_nome@,
            out@.len() > 0 ==> out@[0].fila == 0,
            out@.len() == 0 ==> st == 0,
            out@.len() > 0 ==> out@[out@.len() - 1].fila < st,
            forall|g: int| 0 <= g < out@.len() - 1 ==> #[trigger] group_ok(filas@, out@, g),
            out@.len() > 0 ==> group_ok(filas@, out@.push(UteGrupo {
                contract_id: filas@[st as int].contract_id,
                nome: filas@[st as int].ute_nome,
                asunto: filas@[st as int].asunto,
                data_iso: filas@[st as int].data_iso,
                fila: st,
                membros: membros,
            }), out@.len() - 1),
        decreases n - i,
    {
        if i > st && !(filas[i].contract_id == filas[i - 1].contract_id && filas[i].ute_key == filas[i - 1].ute_key) {
            let g = UteGrupo {
                contract_id: filas[st].contract_id.clone(),
                nome: filas[st].ute_nome.clone(),
                asunto: filas[st].asunto.clone(),
                data_iso: filas[st].data_iso.clone(),
                fila: st,
                membros: membros,
            };
            let ghost old_out = out@;
            out.push(g);
            proof {
                assert forall|gg: int| 0 <= gg < out@.len() - 1 implies #[trigger] group_ok(filas@, out@, gg) by {
                    if gg < old_out.len() - 1 {
                        assert(group_ok(filas@, old_out, gg));
                        assert(out@[gg] == old_out[gg]);
                        assert(out@[gg + 1] == old_out[gg + 1]);
                    } else {
                        assert(old_out.push(out@[gg + 1]) == out@);
                    }
                }
            }
            st = i;
            membros = Vec::new();
        }
        membros.push((filas[i].ekey.clone(), filas[i].membro_nome.clone()));
        i = i + 1;
    }
    let g = UteGrupo {
        contract_id: filas[st].contract_id.clone(),
        nome: filas[st].ute_nome.clone(),
        asunto: filas[st].asunto.clone(),
        data_iso: filas[st].data_iso.clone(),
        fila: st,
        membros: membros,
    };
    let ghost old_out = out@;
    out.push(g);
    proof {
        assert forall|gg: int| 0 <= gg < out@.len() implies #[trigger] group_ok(filas@, out@, gg) by {
            if gg < old_out.len() - 1 {
                assert(group_ok(filas@, old_out, gg));
                assert(out@[gg] == old_out[gg]);
                assert(out@[gg + 1] == old_out[gg + 1]);
            } else if gg == old_out.len() - 1 {
                assert(old_out.push(out@[gg + 1]) == out@);
            }
        }
    }
    out
}


// ───────────────────────── Tramas ─────────────────────────

/// Clave da empresa membro `j` dunha UTE.
pub open spec fn mkey(g: UteGrupo, j: int) -> Seq<char> {
    g.membros@[j].0@
}

/// A UTE ten polo menos dúas empresas membro distintas (só estas forman trama).
pub open spec fn retained(g: UteGrupo) -> bool {
    exists|j: int| 0 < j < g.membros@.len() && #[trigger] mkey(g, j) != mkey(g, 0)
}

/// A empresa de clave `k` é membro da UTE.
pub open spec fn has_key(g: UteGrupo, k: Seq<char>) -> bool {
    exists|j: int| 0 <= j < g.membros@.len() && #[trigger] mkey(g, j) == k
}

/// Unha etiquetaxe das empresas que dá a mesma etiqueta a todos os membros de
/// cada UTE con polo menos dúas empresas distintas.
pub open spec fn respects_utes(lab: spec_fn(Seq<char>) -> int, gs: Seq<UteGrupo>) -> bool {
    forall|u: int, j: int|
        0 <= u < gs.len() && retained(gs[u]) && 0 <= j < gs[u].membros@.len() ==> #[trigger] lab(
            mkey(gs[u], j),
        ) == lab(mkey(gs[u], 0))
}

/// Un grupo (trama) de razóns sociais interconectadas por UTE: as súas
/// empresas, as UTE que as vinculan (índices na lista de UTE) e os contratos
/// (índice da primeira UTE de cada contrato distinto).
#[derive(Debug, Clone)]
pub struct Trama {
    pub empresas: Vec<EmpresaNodo>,
    pub utes: Vec<usize>,
    pub contratos: Vec<usize>,
}

/// Decide se unha UTE forma trama (ten dúas empresas membro distintas).
fn retida(g: &UteGrupo) -> (r: bool)
    ensures
        r == retained(*g),
{
    let n = g.membros.len();
    if n == 0 {
        return false;
    }
    let mut j: usize = 1;
    while j < n
        invariant
            1 <= j <= n == g.membros@.len(),
            forall|m: int| 0 < m < j ==> #[trigger] mkey(*g, m) == mkey(*g, 0),
        decreases n - j,
    {
        if g.membros[j].0 != g.membros[0].0 {
            assert(mkey(*g, j as int) != mkey(*g, 0));
            return true;
        }
        j = j + 1;
    }
    false
}

/// Os índices de nós das empresas membro de cada UTE retida.
pub open spec fn mids_ok(gs: Seq<UteGrupo>, nodes: Seq<String>, mids: Seq<Vec<usize>>, upto: int) -> bool {
    &&& forall|u: int|
        0 <= u < upto && retained(gs[u]) ==> (#[trigger] mids[u])@.len() == gs[u].membros@.len()
    &&& forall|u: int| 0 <= u < upto && !retained(gs[u]) ==> (#[trigger] mids[u])@.len() == 0
    &&& forall|u: int, j: int|
        0 <= u < upto && retained(gs[u]) && 0 <= j < gs[u].membros@.len() ==> (#[trigger] mids[u]@[j])
            < nodes.len() && nodes[mids[u]@[j] as int]@ == mkey(gs[u], j)
}

/// O nó `i` é a empresa membro `j` dalgunha UTE retida `u < upto`.
pub open spec fn node_witness(gs: Seq<UteGrupo>, mids: Seq<Vec<usize>>, upto: int, i: int) -> bool {
    exists|u: int, j: int|
        0 <= u < upto && retained(gs[u]) && 0 <= j < gs[u].membros@.len() && #[trigger] mids[u]@[j]
            == i
}

/// Cada nó é a clave dalgunha empresa membro dunha UTE retida.
pub open spec fn nodes_witnessed(gs: Seq<UteGrupo>, nodes: Seq<String>, mids: Seq<Vec<usize>>, upto: int) -> bool {
    forall|i: int| 0 <= i < nodes.len() ==> #[trigger] node_witness(gs, mids, upto, i)
}

/// Claves distintas.
pub open spec fn distinct_keys(nodes: Seq<String>) -> bool {
    forall|a: int, b: int| 0 <= a < b < nodes.len() ==> nodes[a]@ != nodes[b]@
}

/// Posición dunha clave na lista de nós, engadíndoa se non estaba.
fn no_de(nodes: &mut Vec<String>, k: &String) -> (r: usize)
    requires
        distinct_keys(old(nodes)@),
    ensures
        distinct_keys(final(nodes)@),
        r < final(nodes)@.len(),
        final(nodes)@[r as int]@ == k@,
        final(nodes)@.len() == old(nodes)@.len() || (final(nodes)@ == old(nodes)@.push(*k) && r
            == old(nodes)@.len()),
        final(nodes)@.len() == old(nodes)@.len() ==> final(nodes)@ == old(nodes)@,
        final(nodes)@.len() != old(nodes)@.len() ==> forall|i: int| 0 <= i < old(nodes)@.len() ==> old(nodes)@[i]@ != k@,
        old(nodes)@.len() <= final(nodes)@.len(),
        forall|i: int| 0 <= i < old(nodes)@.len() ==> final(nodes)@[i] == old(nodes)@[i],
{
    let mut i: usize = 0;
    while i < nodes.len()
        invariant
            i <= nodes@.len(),
            nodes@ == old(nodes)@,
            distinct_keys(old(nodes)@),
            forall|m: int| 0 <= m < i ==> nodes@[m]@ != k@,
        decreases nodes.len() - i,
    {
        if nodes[i] == *k {
            assert(distinct_keys(nodes@));
            return i;
        }
        i = i + 1;
    }
    nodes.push(k.clone());
    i
}

/// A posición `(u, j)` é dunha empresa membro dunha UTE retida.
pub open spec fn pos_ok(gs: Seq<UteGrupo>, u: int, j: int) -> bool {
    0 <= u < gs.len() && retained(gs[u]) && 0 <= j < gs[u].membros@.len()
}

/// A posición `(u, j)` é a primeira aparición da súa empresa entre os membros
/// das UTE retidas (percorridas en orde).
pub open spec fn first_pos(gs: Seq<UteGrupo>, u: int, j: int) -> bool {
    &&& pos_ok(gs, u, j)
    &&& forall|uu: int, jj: int| #![trigger mkey(gs[uu], jj)]
        pos_ok(gs, uu, jj) && before(uu, jj, u, j) ==> mkey(gs[uu], jj) != mkey(gs[u], j)
}

/// Nome da empresa na súa primeira aparición.
pub open spec fn first_name_ok(gs: Seq<UteGrupo>, k: Seq<char>, nome: Seq<char>) -> bool {
    exists|u: int, j: int| #[trigger] first_pos(gs, u, j) && mkey(gs[u], j) == k && gs[u].membros@[j].1@ == nome
}

/// Indexa as empresas membro das UTE retidas como nós (claves distintas na
/// orde da súa primeira aparición, co nome desa aparición).
fn indexa_nodos(gs: &Vec<UteGrupo>) -> (r: (Vec<String>, Vec<String>, Vec<Vec<usize>>))
    ensures
        distinct_keys(r.0@),
        r.1@.len() == r.0@.len(),
        r.2@.len() == gs@.len(),
        mids_ok(gs@, r.0@, r.2@, gs@.len() as int),
        nodes_witnessed(gs@, r.0@, r.2@, gs@.len() as int),
        forall|i: int| 0 <= i < r.0@.len() ==> first_name_ok(gs@, #[trigger] r.0@[i]@, r.1@[i]@),
{
    let mut nodes: Vec<String> = Vec::new();
    let mut nomes: Vec<String> = Vec::new();
    let mut mids: Vec<Vec<usize>> = Vec::new();
    let mut u: usize = 0;
    while u < gs.len()
        invariant
            u <= gs@.len(),
            mids@.len() == u,
            nomes@.len() == nodes@.len(),
            distinct_keys(nodes@),
            mids_ok(gs@, nodes@, mids@, u as int),
            nodes_witnessed(gs@, nodes@, mids@, u as int),
            forall|i: int| 0 <= i < nodes@.len() ==> first_name_ok(gs@, #[trigger] nodes@[i]@, nomes@[i]@),
        decreases gs.len() - u,
    {
        let g = &gs[u];
        let mut m: Vec<usize> = Vec::new();
        if retida(g) {
            let mut j: usize = 0;
            while j < g.membros.len()
                invariant
                    u < gs@.len(),
                    *g == gs@[u as int],
                    retained(*g),
                    j <= g.membros@.len(),
                    m@.len() == j,
                    mids@.len() == u,
                    nomes@.len() == nodes@.len(),
                    distinct_keys(nodes@),
                    mids_ok(gs@, nodes@, mids@, u as int),
                    forall|jj: int| 0 <= jj < j ==> (#[trigger] m@[jj]) < nodes@.len() && nodes@[m@[jj] as int]@ == mkey(*g, jj),
                    forall|i: int|
                        0 <= i < nodes@.len() ==> #[trigger] node_witness(gs@, mids@, u as int, i) || (exists|jj: int| 0 <= jj < j && #[trigger] m@[jj] == i),
                    forall|i: int| 0 <= i < nodes@.len() ==> first_name_ok(gs@, #[trigger] nodes@[i]@, nomes@[i]@),
                decreases g.membros.len() - j,
            {
                let ghost old_nodes = nodes@;
                let ghost old_m = m@;
                let id = no_de(&mut nodes, &g.membros[j].0);
                if nodes.len() != nomes.len() {
                    nomes.push(g.membros[j].1.clone());
                    proof {
                        assert(first_pos(gs@, u as int, j as int)) by {
                            assert forall|uu: int, jj: int| #![trigger mkey(gs@[uu], jj)]
                                pos_ok(gs@, uu, jj) && before(uu, jj, u as int, j as int) implies mkey(gs@[uu], jj) != mkey(gs@[u as int], j as int) by {
                                if uu < u {
                                    assert(mids@[uu]@[jj] < old_nodes.len());
                                    assert(old_nodes[mids@[uu]@[jj] as int]@ == mkey(gs@[uu], jj));
                                } else {
                                    assert(old_m[jj] < old_nodes.len());
                                    assert(old_nodes[old_m[jj] as int]@ == mkey(gs@[uu], jj));
                                }
                            }
                        }
                        assert(first_name_ok(gs@, nodes@[id as int]@, nomes@[id as int]@));
                    }
                }
                m.push(id);
                proof {
                    assert(m@ == old_m.push(id));
                    assert forall|i: int| 0 <= i < nodes@.len() implies #[trigger] node_witness(gs@, mids@, u as int, i) || (exists|jj: int| 0 <= jj < j + 1 && #[trigger] m@[jj] == i) by {
                        if i < old_nodes.len() {
                            if !node_witness(gs@, mids@, u as int, i) {
                                assert(exists|jj: int| 0 <= jj < j && #[trigger] old_m[jj] == i);
                                let jj = choose|jj: int| 0 <= jj < j && #[trigger] old_m[jj] == i;
                                assert(m@[jj] == old_m[jj]);
                                assert(0 <= jj < j + 1 && m@[jj] == i);
                            }
                        } else {
                            assert(m@[j as int] == i);
                        }
                    }
                    assert forall|uu: int, jj: int|
                        0 <= uu < u && retained(gs@[uu]) && 0 <= jj < gs@[uu].membros@.len() implies (#[trigger] mids@[uu]@[jj])
                            < nodes@.len() && nodes@[mids@[uu]@[jj] as int]@ == mkey(gs@[uu], jj) by {
                        assert(old_nodes[mids@[uu]@[jj] as int] == nodes@[mids@[uu]@[jj] as int]);
                    }
                    assert forall|i: int| 0 <= i < nodes@.len() implies first_name_ok(gs@, #[trigger] nodes@[i]@, nomes@[i]@) by {
                        if i < old_nodes.len() {
                            assert(nodes@[i] == old_nodes[i]);
                        }
                    }
                }
                j = j + 1;
            }
        }
        let ghost old_mids = mids@;
        mids.push(m);
        proof {
            assert forall|i: int|
                0 <= i < nodes@.len() implies #[trigger] node_witness(gs@, mids@, u + 1, i) by {
                if node_witness(gs@, old_mids, u as int, i) {
                    let (uu, jj) = choose|uu: int, jj: int|
                        0 <= uu < u && retained(gs@[uu]) && 0 <= jj < gs@[uu].membros@.len() && #[trigger] old_mids[uu]@[jj]
                            == i;
                    assert(mids@[uu] == old_mids[uu]);
                    assert(mids@[uu]@[jj] == i);
                } else {
                    let jj = choose|jj: int| 0 <= jj < gs@[u as int].membros@.len() && #[trigger] mids@[u as int]@[jj] == i;
                    assert(retained(gs@[u as int]));
                }
            }
            assert forall|uu: int, jj: int|
                0 <= uu < u + 1 && retained(gs@[uu]) && 0 <= jj < gs@[uu].membros@.len() implies (#[trigger] mids@[uu]@[jj])
                    < nodes@.len() && nodes@[mids@[uu]@[jj] as int]@ == mkey(gs@[uu], jj) by {
                if uu < u {
                    assert(mids@[uu] == old_mids[uu]);
                }
            }
        }
        u = u + 1;
    }
    (nodes, nomes, mids)
}


/// Secuencia estritamente crecente.
pub open spec fn incr(s: Seq<usize>) -> bool {
    forall|a: int, b: int| 0 <= a < b < s.len() ==> s[a] < s[b]
}

/// Os nós coa etiqueta `l`, en orde crecente.
fn nodos_con(comp: &Vec<usize>, l: usize) -> (r: Vec<usize>)
    ensures
        incr(r@),
        forall|e: int| 0 <= e < r@.len() ==> (#[trigger] r@[e]) < comp@.len() && comp@[r@[e] as int] == l,
        forall|x: int| 0 <= x < comp@.len() && comp@[x] == l ==> exists|e: int| 0 <= e < r@.len() && #[trigger] r@[e] == x,
{
    let mut out: Vec<usize> = Vec::new();
    let mut x: usize = 0;
    while x < comp.len()
        invariant
            x <= comp@.len(),
            incr(out@),
            forall|e: int| 0 <= e < out@.len() ==> (#[trigger] out@[e]) < x && comp@[out@[e] as int] == l,
            forall|y: int| 0 <= y < x && comp@[y] == l ==> exists|e: int| 0 <= e < out@.len() && #[trigger] out@[e] == y,
        decreases comp.len() - x,
    {
        if comp[x] == l {
            let ghost old_out = out@;
            out.push(x);
            proof {
                assert forall|y: int| 0 <= y < x + 1 && comp@[y] == l implies exists|e: int| 0 <= e < out@.len() && #[trigger] out@[e] == y by {
                    if y < x {
                        let e = choose|e: int| 0 <= e < old_out.len() && #[trigger] old_out[e] == y;
                        assert(out@[e] == old_out[e]);
                    } else {
                        assert(out@[old_out.len() as int] == y);
                    }
                }
            }
        }
        x = x + 1;
    }
    out
}

/// As UTE retidas (con nós) cuxa primeira empresa ten a etiqueta `l`, en orde crecente.
fn utes_con(mids: &Vec<Vec<usize>>, comp: &Vec<usize>, l: usize) -> (r: Vec<usize>)
    requires
        forall|u: int, j: int| 0 <= u < mids@.len() && 0 <= j < mids@[u]@.len() ==> #[trigger] mids@[u]@[j] < comp@.len(),
    ensures
        incr(r@),
        forall|p: int| 0 <= p < r@.len() ==> (#[trigger] r@[p]) < mids@.len() && mids@[r@[p] as int]@.len() > 0
            && comp@[mids@[r@[p] as int]@[0] as int] == l,
        forall|u: int| 0 <= u < mids@.len() && mids@[u]@.len() > 0 && comp@[mids@[u]@[0] as int] == l ==> exists|p: int|
            0 <= p < r@.len() && #[trigger] r@[p] == u,
{
    let mut out: Vec<usize> = Vec::new();
    let mut u: usize = 0;
    while u < mids.len()
        invariant
            u <= mids@.len(),
            forall|uu: int, j: int| 0 <= uu < mids@.len() && 0 <= j < mids@[uu]@.len() ==> #[trigger] mids@[uu]@[j] < comp@.len(),
            incr(out@),
            forall|p: int| 0 <= p < out@.len() ==> (#[trigger] out@[p]) < u && mids@[out@[p] as int]@.len() > 0
                && comp@[mids@[out@[p] as int]@[0] as int] == l,
            forall|uu: int| 0 <= uu < u && mids@[uu]@.len() > 0 && comp@[mids@[uu]@[0] as int] == l ==> exists|p: int|
                0 <= p < out@.len() && #[trigger] out@[p] == uu,
        decreases mids.len() - u,
    {
        if mids[u].len() > 0 && comp[mids[u][0]] == l {
            let ghost old_out = out@;
            out.push(u);
            proof {
                assert forall|uu: int| 0 <= uu < u + 1 && mids@[uu]@.len() > 0 && comp@[mids@[uu]@[0] as int] == l implies exists|p: int|
                    0 <= p < out@.len() && #[trigger] out@[p] == uu by {
                    if uu < u {
                        let p = choose|p: int| 0 <= p < old_out.len() && #[trigger] old_out[p] == uu;
                        assert(out@[p] == old_out[p]);
                    } else {
                        assert(out@[old_out.len() as int] == uu);
                    }
                }
            }
        }
        u = u + 1;
    }
    out
}

/// Contratos distintos das UTE retidas nas que participa a empresa de clave `k`.
pub open spec fn contract_set(gs: Seq<UteGrupo>, k: Seq<char>) -> Set<Seq<char>> {
    Set::new(|c: Seq<char>| exists|u: int| 0 <= u < gs.len() && retained(gs[u]) && #[trigger] has_key(gs[u], k) && gs[u].contract_id@ == c)
}

/// Os contratos das UTE anteriores a `upto` nas que está a empresa.
pub open spec fn contract_set_upto(gs: Seq<UteGrupo>, k: Seq<char>, upto: int) -> Set<Seq<char>> {
    Set::new(|c: Seq<char>| exists|u: int| 0 <= u < upto && retained(gs[u]) && #[trigger] has_key(gs[u], k) && gs[u].contract_id@ == c)
}

/// Número de contratos distintos nos que participa (vía UTE) o nó `x`.
fn conta_contratos(gs: &Vec<UteGrupo>, nodes: &Vec<String>, mids: &Vec<Vec<usize>>, x: usize) -> (r: usize)
    requires
        x < nodes@.len(),
        distinct_keys(nodes@),
        mids@.len() == gs@.len(),
        mids_ok(gs@, nodes@, mids@, gs@.len() as int),
    ensures
        r == contract_set(gs@, nodes@[x as int]@).len(),
        r <= gs@.len(),
{
    let ghost k = nodes@[x as int]@;
    let mut seen: Vec<String> = Vec::new();
    let mut u: usize = 0;
    while u < gs.len()
        invariant
            u <= gs@.len() == mids@.len(),
            x < nodes@.len(),
            k == nodes@[x as int]@,
            distinct_keys(nodes@),
            mids_ok(gs@, nodes@, mids@, gs@.len() as int),
            views(seen@).no_duplicates(),
            views(seen@).to_set() == contract_set_upto(gs@, k, u as int),
            seen@.len() <= u,
        decreases gs.len() - u,
    {
        let mut dentro = false;
        let len_u = mids[u].len();
        let mut j: usize = 0;
        while j < len_u
            invariant
                u < mids@.len(),
                len_u == mids@[u as int]@.len(),
                j <= len_u,
                dentro == exists|jj: int| 0 <= jj < j && #[trigger] mids@[u as int]@[jj] == x,
            decreases len_u - j,
        {
            if mids[u][j] == x {
                dentro = true;
            }
            j = j + 1;
        }
        proof {
            // `x` está entre os nós da UTE se e só se a empresa é membro dela.
            if retained(gs@[u as int]) {
                if dentro {
                    let jj = choose|jj: int| 0 <= jj < len_u && #[trigger] mids@[u as int]@[jj] == x;
                    assert(mkey(gs@[u as int], jj) == k);
                    assert(has_key(gs@[u as int], k));
                } else if has_key(gs@[u as int], k) {
                    let jj = choose|jj: int| 0 <= jj < gs@[u as int].membros@.len() && #[trigger] mkey(gs@[u as int], jj) == k;
                    let y = mids@[u as int]@[jj];
                    assert(nodes@[y as int]@ == k);
                    if y != x {
                        if y < x {
                            assert(nodes@[y as int]@ != nodes@[x as int]@);
                        } else {
                            assert(nodes@[x as int]@ != nodes@[y as int]@);
                        }
                    }
                    assert(false);
                }
            } else {
                assert(mids@[u as int]@.len() == 0);
            }
        }
        let ghost before_set = contract_set_upto(gs@, k, u as int);
        if dentro {
            let c = &gs[u].contract_id;
            let mut ja = false;
            let mut q: usize = 0;
            while q < seen.len()
                invariant
                    q <= seen@.len(),
                    ja == exists|qq: int| 0 <= qq < q && #[trigger] seen@[qq]@ == c@,
                decreases seen.len() - q,
            {
                if seen[q] == *c {
                    ja = true;
                }
                q = q + 1;
            }
            let ghost old_seen = seen@;
            if !ja {
                seen.push(c.clone());
                proof {
                    assert(views(seen@) == views(old_seen).push(c@));
                    assert forall|a: int, b: int| 0 <= a < views(seen@).len() && 0 <= b < views(seen@).len() && a != b implies views(seen@)[a] != views(seen@)[b] by {
                        if a == old_seen.len() {
                            assert(views(seen@)[b] == old_seen[b]@);
                        } else if b == old_seen.len() {
                            assert(views(seen@)[a] == old_seen[a]@);
                        }
                    }
                }
            }
            proof {
                assert(views(seen@).to_set() =~= contract_set_upto(gs@, k, u + 1)) by {
                    assert forall|cc: Seq<char>| views(seen@).to_set().contains(cc) <==> contract_set_upto(gs@, k, u + 1).contains(cc) by {
                        if views(seen@).to_set().contains(cc) {
                            let a = choose|a: int| 0 <= a < views(seen@).len() && views(seen@)[a] == cc;
                            if a < old_seen.len() {
                                assert(views(old_seen)[a] == cc);
                                assert(views(old_seen).to_set().contains(cc));
                                assert(before_set.contains(cc));
                            } else {
                                assert(cc == gs@[u as int].contract_id@);
                            }
                        }
                        if contract_set_upto(gs@, k, u + 1).contains(cc) {
                            let uu = choose|uu: int| 0 <= uu < u + 1 && retained(gs@[uu]) && #[trigger] has_key(gs@[uu], k) && gs@[uu].contract_id@ == cc;
                            if uu < u {
                                assert(before_set.contains(cc));
                                assert(views(old_seen).to_set().contains(cc));
                                let a = choose|a: int| 0 <= a < views(old_seen).len() && views(old_seen)[a] == cc;
                                assert(views(seen@)[a] == cc);
                            } else if ja {
                                let qq = choose|qq: int| 0 <= qq < seen@.len() && #[trigger] seen@[qq]@ == c@;
                                assert(views(seen@)[qq] == cc);
                            } else {
                                assert(views(seen@)[old_seen.len() as int] == cc);
                            }
                        }
                    }
                }
            }
        } else {
            proof {
                assert(contract_set_upto(gs@, k, u + 1) =~= before_set) by {
                    assert forall|cc: Seq<char>| contract_set_upto(gs@, k, u + 1).contains(cc) implies before_set.contains(cc) by {
                        let uu = choose|uu: int| 0 <= uu < u + 1 && retained(gs@[uu]) && #[trigger] has_key(gs@[uu], k) && gs@[uu].contract_id@ == cc;
                        if uu == u {
                            assert(false);
                        }
                    }
                }
            }
        }
        u = u + 1;
    }
    proof {
        views(seen@).unique_seq_to_set();
        assert(contract_set_upto(gs@, k, gs@.len() as int) =~= contract_set(gs@, k));
    }
    seen.len()
}

/// Lista de cadeas vista como secuencia de secuencias de caracteres.
pub open spec fn views(v: Seq<String>) -> Seq<Seq<char>> {
    v.map_values(|s: String| s@)
}


/// Contrato dunha UTE.
pub open spec fn cid(gs: Seq<UteGrupo>, u: usize) -> Seq<char> {
    gs[u as int].contract_id@
}

/// As UTE dadas conservando só a primeira de cada contrato, na súa orde.
pub open spec fn first_per_contract(gs: Seq<UteGrupo>, us: Seq<usize>) -> Seq<usize>
    decreases us.len(),
{
    if us.len() == 0 {
        Seq::<usize>::empty()
    } else if exists|q: int| 0 <= q < us.len() - 1 && #[trigger] cid(gs, us[q]) == cid(gs, us.last()) {
        first_per_contract(gs, us.drop_last())
    } else {
        first_per_contract(gs, us.drop_last()).push(us.last())
    }
}

/// A primeira UTE de cada contrato distinto (un contrato unha soa vez).
fn primeiros_contratos(gs: &Vec<UteGrupo>, us: &Vec<usize>) -> (r: Vec<usize>)
    requires
        forall|p: int| 0 <= p < us@.len() ==> (#[trigger] us@[p]) < gs@.len(),
    ensures
        r@ == first_per_contract(gs@, us@),
        forall|p: int| 0 <= p < r@.len() ==> (#[trigger] r@[p]) < gs@.len(),
{
    let mut out: Vec<usize> = Vec::new();
    let mut seen: Vec<String> = Vec::new();
    let ghost mut wit: Seq<int> = Seq::empty();
    let mut i: usize = 0;
    while i < us.len()
        invariant
            i <= us@.len(),
            forall|p: int| 0 <= p < us@.len() ==> (#[trigger] us@[p]) < gs@.len(),
            out@ == first_per_contract(gs@, us@.take(i as int)),
            forall|p: int| 0 <= p < out@.len() ==> (#[trigger] out@[p]) < gs@.len(),
            forall|q: int| 0 <= q < i ==> views(seen@).contains(#[trigger] cid(gs@, us@[q])),
            wit.len() == seen@.len(),
            forall|a: int| 0 <= a < seen@.len() ==> 0 <= #[trigger] wit[a] < i && cid(gs@, us@[wit[a]]) == seen@[a]@,
        decreases us.len() - i,
    {
        let c = &gs[us[i]].contract_id;
        let mut ja = false;
        let mut q: usize = 0;
        while q < seen.len()
            invariant
                q <= seen@.len(),
                ja == exists|qq: int| 0 <= qq < q && #[trigger] seen@[qq]@ == c@,
            decreases seen.len() - q,
        {
            if seen[q] == *c {
                ja = true;
            }
            q = q + 1;
        }
        let ghost pre = us@.take(i as int);
        let ghost pre1 = us@.take(i + 1);
        proof {
            assert(pre1.drop_last() == pre);
            assert(pre1.last() == us@[i as int]);
            let ex = exists|qq: int| 0 <= qq < pre1.len() - 1 && #[trigger] cid(gs@, pre1[qq]) == cid(gs@, pre1.last());
            if ja {
                let qq = choose|qq: int| 0 <= qq < seen@.len() && #[trigger] seen@[qq]@ == c@;
                let q0 = wit[qq];
                assert(pre1[q0] == us@[q0]);
                assert(cid(gs@, pre1[q0]) == cid(gs@, pre1.last()));
                assert(ex);
            } else {
                if ex {
                    let q0 = choose|q0: int| 0 <= q0 < pre1.len() - 1 && #[trigger] cid(gs@, pre1[q0]) == cid(gs@, pre1.last());
                    assert(pre1[q0] == us@[q0]);
                    assert(views(seen@).contains(cid(gs@, us@[q0])));
                    let a = choose|a: int| 0 <= a < views(seen@).len() && views(seen@)[a] == cid(gs@, us@[q0]);
                    assert(seen@[a]@ == c@);
                    assert(false);
                }
            }
        }
        let ghost old_seen = seen@;
        if !ja {
            out.push(us[i]);
            seen.push(c.clone());
            proof {
                wit = wit.push(i as int);
            }
        }
        proof {
            assert forall|q: int| 0 <= q < i + 1 implies views(seen@).contains(#[trigger] cid(gs@, us@[q])) by {
                if q < i {
                    let a = choose|a: int| 0 <= a < views(old_seen).len() && views(old_seen)[a] == cid(gs@, us@[q]);
                    assert(views(seen@)[a] == views(old_seen)[a]);
                } else if ja {
                    let qq = choose|qq: int| 0 <= qq < seen@.len() && #[trigger] seen@[qq]@ == c@;
                    assert(views(seen@)[qq] == c@);
                } else {
                    assert(views(seen@)[old_seen.len() as int] == c@);
                }
            }
        }
        i = i + 1;
    }
    proof {
        assert(us@.take(us@.len() as int) == us@);
    }
    out
}


// ───────────────────────── Orde dos contratos ─────────────────────────

/// Data de publicación (ISO `AAAA-MM-DD`) do contrato dunha UTE.
pub open spec fn data_de(gs: Seq<UteGrupo>, u: usize) -> Seq<char> {
    gs[u as int].data_iso@
}

/// Contratos ordenados por data de publicación, do máis recente ao máis antigo
/// (as datas ISO ordénanse coma cadeas).
pub open spec fn contratos_ordenados(gs: Seq<UteGrupo>, cs: Seq<usize>) -> bool {
    forall|a: int, b: int| 0 <= a < b < cs.len() ==> lex_le(#[trigger] data_de(gs, cs[b]), #[trigger] data_de(gs, cs[a]))
}

/// `out` é `orig` reordenada de xeito que os contratos da mesma data conservan
/// a orde que tiñan en `orig`.
pub open spec fn reordenacion_estable(gs: Seq<UteGrupo>, out: Seq<usize>, orig: Seq<usize>) -> bool {
    exists|p: Seq<int>, q: Seq<int>|
        #[trigger] perm_of(out, orig, p, q) && forall|a: int, b: int|
            0 <= a < b < out.len() && data_de(gs, out[a]) == data_de(gs, out[b]) ==> #[trigger] p[a] < #[trigger] p[b]
}

/// A data de publicación dun contrato, como caracteres.
fn clave_data(gs: &Vec<UteGrupo>, u: usize) -> (r: Vec<char>)
    requires
        u < gs@.len(),
    ensures
        r@ == data_de(gs@, u),
{
    chars_of(gs[u].data_iso.as_str())
}

/// Ordena os contratos por data de publicación descendente; os da mesma data
/// conservan a súa orde.
fn ordena_contratos(gs: &Vec<UteGrupo>, v: Vec<usize>) -> (r: Vec<usize>)
    requires
        forall|k: int| 0 <= k < v@.len() ==> (#[trigger] v@[k]) < gs@.len(),
    ensures
        contratos_ordenados(gs@, r@),
        reordenacion_estable(gs@, r@, v@),
        forall|k: int| 0 <= k < r@.len() ==> (#[trigger] r@[k]) < gs@.len(),
{
    let ghost orig = v@;
    let mut src = v;
    let mut out: Vec<usize> = Vec::new();
    let ghost mut p: Seq<int> = Seq::empty();
    let ghost mut q: Seq<int> = Seq::new(orig.len(), |i: int| 0);
    while src.len() > 0
        invariant
            src@ == orig.take(src@.len() as int),
            src@.len() <= orig.len(),
            forall|k: int| 0 <= k < orig.len() ==> (#[trigger] orig[k]) < gs@.len(),
            perm_tail(out@, orig, src@.len() as int, p, q),
            contratos_ordenados(gs@, out@),
            forall|k: int| 0 <= k < out@.len() ==> (#[trigger] out@[k]) < gs@.len(),
            forall|a: int, b: int|
                0 <= a < b < out@.len() && data_de(gs@, out@[a]) == data_de(gs@, out@[b]) ==> #[trigger] p[a] < #[trigger] p[b],
        decreases src.len(),
    {
        let ghost m = src@.len() as int;
        let x = src.pop().unwrap();
        proof {
            assert(x == orig[m - 1]);
            assert(src@ =~= orig.take(m - 1));
        }
        let kx = clave_data(gs, x);
        let mut pos: usize = 0;
        while pos < out.len() && !lex_le_exec(&clave_data(gs, out[pos]), &kx)
            invariant
                pos <= out@.len(),
                x < gs@.len(),
                kx@ == data_de(gs@, x),
                forall|k: int| 0 <= k < m - 1 ==> (#[trigger] orig[k]) < gs@.len(),
                forall|k: int| 0 <= k < orig.len() ==> (#[trigger] orig[k]) < gs@.len(),
                perm_tail(out@, orig, m, p, q),
                forall|k: int| 0 <= k < out@.len() ==> (#[trigger] out@[k]) < gs@.len(),
                forall|k: int| 0 <= k < pos ==> !lex_le(#[trigger] data_de(gs@, out@[k]), data_de(gs@, x)),
            decreases out.len() - pos,
        {
            pos = pos + 1;
        }
        let ghost old_out = out@;
        let ghost old_p = p;
        proof {
            let pq = lemma_perm_tail_insert(old_out, orig, m, p, q, pos as int);
            p = pq.0;
            q = pq.1;
            assert forall|k: int| 0 <= k < pos implies lex_le(data_de(gs@, x), #[trigger] data_de(gs@, old_out[k])) by {
                lemma_lex_total(data_de(gs@, x), data_de(gs@, old_out[k]));
            }
        }
        out.insert(pos, x);
        proof {
            assert(out@ == old_out.insert(pos as int, orig[m - 1]));
            assert forall|k: int| 0 <= k < out@.len() implies (#[trigger] out@[k]) < gs@.len() by {
                assert(out@[k] == orig[p[k]]);
            }
            assert forall|a: int, b: int| 0 <= a < b < out@.len() implies lex_le(#[trigger] data_de(gs@, out@[b]), #[trigger] data_de(gs@, out@[a])) by {
                if b < pos {
                    assert(out@[a] == old_out[a] && out@[b] == old_out[b]);
                } else if a > pos {
                    assert(out@[a] == old_out[a - 1] && out@[b] == old_out[b - 1]);
                } else if a == pos {
                    assert(out@[b] == old_out[b - 1]);
                    if b - 1 > pos {
                        assert(lex_le(data_de(gs@, old_out[b - 1]), data_de(gs@, old_out[pos as int])));
                        lemma_lex_trans(data_de(gs@, old_out[b - 1]), data_de(gs@, old_out[pos as int]), data_de(gs@, x));
                    }
                } else if b == pos {
                    assert(out@[a] == old_out[a]);
                } else {
                    assert(out@[a] == old_out[a] && out@[b] == old_out[b - 1]);
                    if b - 1 > pos {
                        assert(lex_le(data_de(gs@, old_out[b - 1]), data_de(gs@, old_out[pos as int])));
                        lemma_lex_trans(data_de(gs@, old_out[b - 1]), data_de(gs@, old_out[pos as int]), data_de(gs@, x));
                    }
                    lemma_lex_trans(data_de(gs@, old_out[b - 1]), data_de(gs@, x), data_de(gs@, old_out[a]));
                }
            }
            assert forall|a: int, b: int|
                0 <= a < b < out@.len() && data_de(gs@, out@[a]) == data_de(gs@, out@[b]) implies #[trigger] p[a] < #[trigger] p[b] by {
                if b < pos {
                    assert(out@[a] == old_out[a] && out@[b] == old_out[b]);
                    assert(old_p[a] < old_p[b]);
                } else if a > pos {
                    assert(out@[a] == old_out[a - 1] && out@[b] == old_out[b - 1]);
                    assert(old_p[a - 1] < old_p[b - 1]);
                } else if a == pos {
                    assert(old_p[b - 1] >= m);
                } else if b == pos {
                    assert(out@[a] == old_out[a]);
                    lemma_lex_refl(data_de(gs@, x));
                    assert(false);
                } else {
                    assert(out@[a] == old_out[a] && out@[b] == old_out[b - 1]);
                    assert(old_p[a] < old_p[b - 1]);
                }
            }
        }
    }
    proof {
        lemma_perm_tail_done(out@, orig, p, q);
        assert forall|k: int| 0 <= k < out@.len() implies (#[trigger] out@[k]) < gs@.len() by {
            assert(out@[k] == orig[p[k]]);
        }
    }
    out
}

// ───────────────────────── Orde das empresas ─────────────────────────

/// Clave de orde dunha empresa: o seu nome en minúsculas.
pub open spec fn nome_orde(e: EmpresaNodo) -> Seq<char> {
    str_lowercase(e.empresa_nome@)
}

/// Empresas ordenadas alfabeticamente polo nome en minúsculas.
pub open spec fn empresas_ordenadas(es: Seq<EmpresaNodo>) -> bool {
    forall|a: int, b: int| 0 <= a < b < es.len() ==> lex_le(#[trigger] nome_orde(es[a]), #[trigger] nome_orde(es[b]))
}

/// O nome en minúsculas dunha empresa, como caracteres.
fn clave_nome(e: &EmpresaNodo) -> (r: Vec<char>)
    ensures
        r@ == nome_orde(*e),
{
    let l = lowercase_str(e.empresa_nome.as_str());
    chars_of(l.as_str())
}

/// Ordena as empresas alfabeticamente polo nome en minúsculas (as de nome igual
/// conservan a súa orde).
fn ordena_empresas(v: Vec<EmpresaNodo>) -> (r: Vec<EmpresaNodo>)
    ensures
        empresas_ordenadas(r@),
        exists|p: Seq<int>, q: Seq<int>| #[trigger] perm_of(r@, v@, p, q),
{
    let ghost orig = v@;
    let mut src = v;
    let mut out: Vec<EmpresaNodo> = Vec::new();
    let ghost mut p: Seq<int> = Seq::empty();
    let ghost mut q: Seq<int> = Seq::new(orig.len(), |i: int| 0);
    while src.len() > 0
        invariant
            src@ == orig.take(src@.len() as int),
            src@.len() <= orig.len(),
            perm_tail(out@, orig, src@.len() as int, p, q),
            empresas_ordenadas(out@),
        decreases src.len(),
    {
        let ghost m = src@.len() as int;
        let x = src.pop().unwrap();
        proof {
            assert(x == orig[m - 1]);
            assert(src@ =~= orig.take(m - 1));
        }
        let kx = clave_nome(&x);
        let mut pos: usize = 0;
        while pos < out.len() && !lex_le_exec(&kx, &clave_nome(&out[pos]))
            invariant
                pos <= out@.len(),
                kx@ == nome_orde(x),
                forall|k: int| 0 <= k < pos ==> lex_le(#[trigger] nome_orde(out@[k]), nome_orde(x)),
            decreases out.len() - pos,
        {
            proof {
                lemma_lex_total(nome_orde(x), nome_orde(out@[pos as int]));
            }
            pos = pos + 1;
        }
        let ghost old_out = out@;
        proof {
            let pq = lemma_perm_tail_insert(old_out, orig, m, p, q, pos as int);
            p = pq.0;
            q = pq.1;
        }
        out.insert(pos, x);
        proof {
            assert(out@ == old_out.insert(pos as int, orig[m - 1]));
            assert forall|a: int, b: int| 0 <= a < b < out@.len() implies lex_le(#[trigger] nome_orde(out@[a]), #[trigger] nome_orde(out@[b])) by {
                if b < pos {
                    assert(out@[a] == old_out[a] && out@[b] == old_out[b]);
                } else if a > pos {
                    assert(out@[a] == old_out[a - 1] && out@[b] == old_out[b - 1]);
                } else if a == pos {
                    assert(out@[b] == old_out[b - 1]);
                    if b - 1 > pos {
                        assert(lex_le(nome_orde(old_out[pos as int]), nome_orde(old_out[b - 1])));
                    } else {
                        lemma_lex_refl(nome_orde(old_out[pos as int]));
                    }
                    lemma_lex_trans(nome_orde(x), nome_orde(old_out[pos as int]), nome_orde(old_out[b - 1]));
                } else if b == pos {
                    assert(out@[a] == old_out[a]);
                } else {
                    assert(out@[a] == old_out[a] && out@[b] == old_out[b - 1]);
                    lemma_lex_trans(nome_orde(old_out[a]), nome_orde(x), nome_orde(old_out[pos as int]));
                    if b - 1 > pos {
                        lemma_lex_trans(nome_orde(old_out[a]), nome_orde(old_out[pos as int]), nome_orde(old_out[b - 1]));
                    }
                }
            }
        }
    }
    proof {
        lemma_perm_tail_done(out@, orig, p, q);
    }
    out
}

// ───────────────────────── Orde das tramas ─────────────────────────

/// Suma do número de contratos das empresas.
pub open spec fn suma_contratos(es: Seq<EmpresaNodo>) -> int
    decreases es.len(),
{
    if es.len() == 0 {
        0
    } else {
        suma_contratos(es.drop_last()) + es.last().num_contratos
    }
}

/// A trama `a` pode ir antes ca `b`: ten máis empresas, ou as mesmas e non
/// menos contratos sumados.
pub open spec fn trama_antes(a: Trama, b: Trama) -> bool {
    ||| a.empresas@.len() > b.empresas@.len()
    ||| (a.empresas@.len() == b.empresas@.len() && suma_contratos(a.empresas@) >= suma_contratos(b.empresas@))
}

/// As tramas máis grandes primeiro.
pub open spec fn tramas_ordenadas(ts: Seq<Trama>) -> bool {
    forall|a: int, b: int| 0 <= a < b < ts.len() ==> trama_antes(#[trigger] ts[a], #[trigger] ts[b])
}

/// Suma do número de contratos das empresas.
fn suma_exec(es: &Vec<EmpresaNodo>) -> (r: i128)
    ensures
        r == suma_contratos(es@),
{
    let mut acc: i128 = 0;
    let mut i: usize = 0;
    while i < es.len()
        invariant
            i <= es@.len(),
            acc == suma_contratos(es@.take(i as int)),
            -(i * 0x8000_0000_0000_0000) <= acc <= i * 0x8000_0000_0000_0000,
        decreases es.len() - i,
    {
        proof {
            assert(es@.take(i + 1).drop_last() =~= es@.take(i as int));
        }
        acc = acc + es[i].num_contratos as i128;
        i = i + 1;
    }
    proof {
        assert(es@.take(es@.len() as int) =~= es@);
    }
    acc
}

/// Decide se a trama `a` pode ir antes ca `b`.
fn antes_exec(a: &Trama, b: &Trama) -> (r: bool)
    ensures
        r == trama_antes(*a, *b),
{
    let na = a.empresas.len();
    let nb = b.empresas.len();
    na > nb || (na == nb && suma_exec(&a.empresas) >= suma_exec(&b.empresas))
}

/// Ordena as tramas das máis grandes ás máis pequenas (as equivalentes
/// conservan a súa orde).
fn ordena_tramas(v: Vec<Trama>) -> (r: Vec<Trama>)
    ensures
        tramas_ordenadas(r@),
        exists|p: Seq<int>, q: Seq<int>| #[trigger] perm_of(r@, v@, p, q),
{
    let ghost orig = v@;
    let mut src = v;
    let mut out: Vec<Trama> = Vec::new();
    let ghost mut p: Seq<int> = Seq::empty();
    let ghost mut q: Seq<int> = Seq::new(orig.len(), |i: int| 0);
    while src.len() > 0
        invariant
            src@ == orig.take(src@.len() as int),
            src@.len() <= orig.len(),
            perm_tail(out@, orig, src@.len() as int, p, q),
            tramas_ordenadas(out@),
        decreases src.len(),
    {
        let ghost m = src@.len() as int;
        let x = src.pop().unwrap();
        proof {
            assert(x == orig[m - 1]);
            assert(src@ =~= orig.take(m - 1));
        }
        let mut pos: usize = 0;
        while pos < out.len() && !antes_exec(&x, &out[pos])
            invariant
                pos <= out@.len(),
                forall|k: int| 0 <= k < pos ==> trama_antes(#[trigger] out@[k], x),
            decreases out.len() - pos,
        {
            pos = pos + 1;
        }
        let ghost old_out = out@;
        proof {
            let pq = lemma_perm_tail_insert(old_out, orig, m, p, q, pos as int);
            p = pq.0;
            q = pq.1;
        }
        out.insert(pos, x);
        proof {
            assert(out@ == old_out.insert(pos as int, orig[m - 1]));
            assert forall|a: int, b: int| 0 <= a < b < out@.len() implies trama_antes(#[trigger] out@[a], #[trigger] out@[b]) by {
                if b < pos {
                    assert(out@[a] == old_out[a] && out@[b] == old_out[b]);
                } else if a > pos {
                    assert(out@[a] == old_out[a - 1] && out@[b] == old_out[b - 1]);
                } else if a == pos {
                    assert(out@[b] == old_out[b - 1]);
                    if b - 1 > pos {
                        assert(trama_antes(old_out[pos as int], old_out[b - 1]));
                    }
                } else if b == pos {
                    assert(out@[a] == old_out[a]);
                } else {
                    assert(out@[a] == old_out[a] && out@[b] == old_out[b - 1]);
                    if b - 1 > pos {
                        assert(trama_antes(old_out[pos as int], old_out[b - 1]));
                    }
                }
            }
        }
    }
    proof {
        lemma_perm_tail_done(out@, orig, p, q);
    }
    out
}

// ───────────────────────── Construción das tramas ─────────────────────────

/// A trama ten a UTE `u`.
pub open spec fn ten_ute(t: Trama, u: int) -> bool {
    exists|p: int| 0 <= p < t.utes@.len() && #[trigger] t.utes@[p] == u
}

/// A trama ten a empresa de clave `k`.
pub open spec fn ten_empresa(t: Trama, k: Seq<char>) -> bool {
    exists|e: int| 0 <= e < t.empresas@.len() && #[trigger] t.empresas@[e].cif@ == k
}

/// A empresa de clave `k` é membro dalgunha UTE da trama.
pub open spec fn membro_de_trama(gs: Seq<UteGrupo>, t: Trama, k: Seq<char>) -> bool {
    exists|p: int, j: int|
        0 <= p < t.utes@.len() && 0 <= j < gs[t.utes@[p] as int].membros@.len() && #[trigger] mkey(
            gs[t.utes@[p] as int],
            j,
        ) == k
}

/// Unha trama ben formada: UTE retidas en orde crecente, as súas empresas son
/// exactamente os membros desas UTE (co nome da primeira aparición e o número de
/// contratos distintos), os contratos son a primeira UTE de cada contrato,
/// ordenados por data de publicación do máis recente ao máis antigo (os da mesma
/// data na orde das UTE), e as empresas van en orde alfabética.
pub open spec fn trama_ok(gs: Seq<UteGrupo>, t: Trama) -> bool {
    &&& t.utes@.len() > 0
    &&& incr(t.utes@)
    &&& forall|p: int| 0 <= p < t.utes@.len() ==> (#[trigger] t.utes@[p]) < gs.len() && retained(gs[t.utes@[p] as int])
    &&& forall|p: int, j: int|
        0 <= p < t.utes@.len() && 0 <= j < gs[t.utes@[p] as int].membros@.len() ==> ten_empresa(
            t,
            #[trigger] mkey(gs[t.utes@[p] as int], j),
        )
    &&& forall|e: int|
        0 <= e < t.empresas@.len() ==> membro_de_trama(gs, t, (#[trigger] t.empresas@[e]).cif@) && first_name_ok(
            gs,
            t.empresas@[e].cif@,
            t.empresas@[e].empresa_nome@,
        ) && t.empresas@[e].num_contratos == contract_set(gs, t.empresas@[e].cif@).len()
    &&& reordenacion_estable(gs, t.contratos@, first_per_contract(gs, t.utes@))
    &&& contratos_ordenados(gs, t.contratos@)
    &&& empresas_ordenadas(t.empresas@)
}

/// As tramas son as compoñentes conexas do grafo empresa↔empresa das UTE
/// retidas: cada UTE retida está nunha e só nunha trama, cada empresa está nunha
/// soa trama e dúas empresas da mesma trama non se poden separar por ningunha
/// etiquetaxe que dea a mesma etiqueta aos membros de cada UTE.
pub open spec fn tramas_ok(gs: Seq<UteGrupo>, ts: Seq<Trama>) -> bool {
    &&& forall|t: int| 0 <= t < ts.len() ==> trama_ok(gs, #[trigger] ts[t])
    &&& forall|u: int| 0 <= u < gs.len() && retained(gs[u]) ==> exists|t: int| 0 <= t < ts.len() && #[trigger] ten_ute(ts[t], u)
    &&& forall|t1: int, t2: int, p1: int, p2: int|
        0 <= t1 < ts.len() && 0 <= t2 < ts.len() && t1 != t2 && 0 <= p1 < ts[t1].utes@.len() && 0 <= p2
            < ts[t2].utes@.len() ==> #[trigger] ts[t1].utes@[p1] != #[trigger] ts[t2].utes@[p2]
    &&& forall|t1: int, t2: int, e1: int, e2: int|
        0 <= t1 < ts.len() && 0 <= t2 < ts.len() && 0 <= e1 < ts[t1].empresas@.len() && 0 <= e2
            < ts[t2].empresas@.len() && (t1 != t2 || e1 != e2) ==> #[trigger] ts[t1].empresas@[e1].cif@
            != #[trigger] ts[t2].empresas@[e2].cif@
    &&& forall|lab: spec_fn(Seq<char>) -> int| #[trigger] respects_utes(lab, gs) ==>
        forall|t: int, e1: int, e2: int|
            0 <= t < ts.len() && 0 <= e1 < ts[t].empresas@.len() && 0 <= e2 < ts[t].empresas@.len() ==> lab(
                #[trigger] ts[t].empresas@[e1].cif@,
            ) == lab(#[trigger] ts[t].empresas@[e2].cif@)
}

/// Os datos de partida: nós indexados e as súas compoñentes.
pub open spec fn base_ok(
    gs: Seq<UteGrupo>,
    nodes: Seq<String>,
    nomes: Seq<String>,
    mids: Seq<Vec<usize>>,
    comp: Seq<usize>,
) -> bool {
    &&& distinct_keys(nodes)
    &&& nomes.len() == nodes.len()
    &&& comp.len() == nodes.len()
    &&& mids.len() == gs.len()
    &&& gs.len() <= i64::MAX
    &&& mids_ok(gs, nodes, mids, gs.len() as int)
    &&& nodes_witnessed(gs, nodes, mids, gs.len() as int)
    &&& forall|i: int| 0 <= i < nodes.len() ==> first_name_ok(gs, #[trigger] nodes[i]@, nomes[i]@)
    &&& forall|u: int, j: int| 0 <= u < mids.len() && 0 <= j < mids[u]@.len() ==> #[trigger] mids[u]@[j] < comp.len()
    &&& forall|x: int| 0 <= x < comp.len() ==> (#[trigger] comp[x]) < comp.len()
    &&& forall|x: int| 0 <= x < comp.len() ==> comp[(#[trigger] comp[x]) as int] == comp[x]
    &&& respects_groups(comp_fn(comp), mids, mids.len() as int, 0)
    &&& finest(comp, mids, mids.len() as int, 0)
}

/// A trama `t` é a compoñente de etiqueta `l`; `xs` dá o nó de cada empresa.
pub open spec fn trama_de(
    gs: Seq<UteGrupo>,
    nodes: Seq<String>,
    nomes: Seq<String>,
    mids: Seq<Vec<usize>>,
    comp: Seq<usize>,
    l: usize,
    xs: Seq<usize>,
    t: Trama,
) -> bool {
    &&& l < comp.len()
    &&& comp[l as int] == l
    &&& xs.len() == t.empresas@.len()
    &&& forall|e: int|
        0 <= e < xs.len() ==> (#[trigger] xs[e]) < comp.len() && comp[xs[e] as int] == l
            && t.empresas@[e].cif@ == nodes[xs[e] as int]@ && t.empresas@[e].empresa_nome@ == nomes[xs[e] as int]@
            && t.empresas@[e].num_contratos == contract_set(gs, nodes[xs[e] as int]@).len()
    &&& forall|e1: int, e2: int| 0 <= e1 < xs.len() && 0 <= e2 < xs.len() && e1 != e2 ==> #[trigger] xs[e1] != #[trigger] xs[e2]
    &&& forall|x: int| 0 <= x < comp.len() && comp[x] == l ==> exists|e: int| 0 <= e < xs.len() && #[trigger] xs[e] == x
    &&& incr(t.utes@)
    &&& forall|p: int|
        0 <= p < t.utes@.len() ==> (#[trigger] t.utes@[p]) < mids.len() && mids[t.utes@[p] as int]@.len() > 0
            && comp[mids[t.utes@[p] as int]@[0] as int] == l
    &&& forall|u: int|
        0 <= u < mids.len() && mids[u]@.len() > 0 && comp[mids[u]@[0] as int] == l ==> exists|p: int|
            0 <= p < t.utes@.len() && #[trigger] t.utes@[p] == u
    &&& reordenacion_estable(gs, t.contratos@, first_per_contract(gs, t.utes@))
    &&& contratos_ordenados(gs, t.contratos@)
    &&& empresas_ordenadas(t.empresas@)
}

/// Monta a trama da compoñente de etiqueta `l`.
fn monta_trama(
    gs: &Vec<UteGrupo>,
    nodes: &Vec<String>,
    nomes: &Vec<String>,
    mids: &Vec<Vec<usize>>,
    comp: &Vec<usize>,
    l: usize,
) -> (t: Trama)
    requires
        base_ok(gs@, nodes@, nomes@, mids@, comp@),
        l < comp@.len(),
        comp@[l as int] == l,
    ensures
        exists|xs: Seq<usize>| #[trigger] trama_de(gs@, nodes@, nomes@, mids@, comp@, l, xs, t),
{
    let xs0 = nodos_con(comp, l);
    let mut es: Vec<EmpresaNodo> = Vec::new();
    let mut e: usize = 0;
    while e < xs0.len()
        invariant
            base_ok(gs@, nodes@, nomes@, mids@, comp@),
            e <= xs0@.len(),
            es@.len() == e,
            forall|f: int| 0 <= f < xs0@.len() ==> (#[trigger] xs0@[f]) < comp@.len() && comp@[xs0@[f] as int] == l,
            forall|f: int|
                0 <= f < e ==> (#[trigger] es@[f]).cif@ == nodes@[xs0@[f] as int]@ && es@[f].empresa_nome@
                    == nomes@[xs0@[f] as int]@ && es@[f].num_contratos == contract_set(gs@, nodes@[xs0@[f] as int]@).len(),
        decreases xs0.len() - e,
    {
        let x = xs0[e];
        let n = conta_contratos(gs, nodes, mids, x);
        es.push(EmpresaNodo { cif: nodes[x].clone(), empresa_nome: nomes[x].clone(), num_contratos: n as i64 });
        e = e + 1;
    }
    let ghost es0 = es@;
    let es2 = ordena_empresas(es);
    let us = utes_con(mids, comp, l);
    let cs0 = primeiros_contratos(gs, &us);
    let cs = ordena_contratos(gs, cs0);
    let t = Trama { empresas: es2, utes: us, contratos: cs };
    proof {
        let (p, q) = choose|p: Seq<int>, q: Seq<int>| #[trigger] perm_of(t.empresas@, es0, p, q);
        let xs = Seq::new(t.empresas@.len(), |k: int| xs0@[p[k]]);
        assert forall|e1: int, e2: int| 0 <= e1 < xs.len() && 0 <= e2 < xs.len() && e1 != e2 implies #[trigger] xs[e1] != #[trigger] xs[e2] by {
            assert(p[e1] != p[e2]);
            if p[e1] < p[e2] {
                assert(xs0@[p[e1]] < xs0@[p[e2]]);
            } else {
                assert(xs0@[p[e2]] < xs0@[p[e1]]);
            }
        }
        assert forall|x: int| 0 <= x < comp@.len() && comp@[x] == l implies exists|e: int| 0 <= e < xs.len() && #[trigger] xs[e] == x by {
            let f = choose|f: int| 0 <= f < xs0@.len() && #[trigger] xs0@[f] == x;
            assert(xs[q[f]] == xs0@[p[q[f]]]);
        }
        assert forall|e: int| 0 <= e < xs.len() implies (#[trigger] xs[e]) < comp@.len() && comp@[xs[e] as int] == l
            && t.empresas@[e].cif@ == nodes@[xs[e] as int]@ && t.empresas@[e].empresa_nome@ == nomes@[xs[e] as int]@
            && t.empresas@[e].num_contratos == contract_set(gs@, nodes@[xs[e] as int]@).len() by {
            assert(t.empresas@[e] == es0[p[e]]);
            assert(es0[p[e]] == es0[p[e]]);
        }
        assert(trama_de(gs@, nodes@, nomes@, mids@, comp@, l, xs, t));
    }
    t
}

/// Unha trama montada dunha compoñente está ben formada.
#[verifier::rlimit(40)]
#[verifier::spinoff_prover]
proof fn lemma_trama_ok(
    gs: Seq<UteGrupo>,
    nodes: Seq<String>,
    nomes: Seq<String>,
    mids: Seq<Vec<usize>>,
    comp: Seq<usize>,
    l: usize,
    xs: Seq<usize>,
    t: Trama,
)
    requires
        base_ok(gs, nodes, nomes, mids, comp),
        trama_de(gs, nodes, nomes, mids, comp, l, xs, t),
    ensures
        trama_ok(gs, t),
{
    let n = comp.len() as int;
    // A raíz é membro dunha UTE retida, que está na trama.
    assert(node_witness(gs, mids, gs.len() as int, l as int));
    let (u0, j0) = choose|u: int, j: int|
        0 <= u < gs.len() && retained(gs[u]) && 0 <= j < gs[u].membros@.len() && #[trigger] mids[u]@[j] == l;
    assert(comp_fn(comp)(mids[u0]@[j0] as int) == comp_fn(comp)(mids[u0]@[0] as int));
    assert(exists|p: int| 0 <= p < t.utes@.len() && #[trigger] t.utes@[p] == u0);
    assert forall|p: int| 0 <= p < t.utes@.len() implies (#[trigger] t.utes@[p]) < gs.len() && retained(gs[t.utes@[p] as int]) by {
        let u = t.utes@[p] as int;
        assert(mids[u]@.len() > 0);
    }
    assert forall|p: int, j: int|
        0 <= p < t.utes@.len() && 0 <= j < gs[t.utes@[p] as int].membros@.len() implies ten_empresa(
        t,
        #[trigger] mkey(gs[t.utes@[p] as int], j),
    ) by {
        let u = t.utes@[p] as int;
        assert(mids[u]@.len() > 0);
        assert(retained(gs[u]));
        let y = mids[u]@[j];
        assert(comp_fn(comp)(mids[u]@[j] as int) == comp_fn(comp)(mids[u]@[0] as int));
        assert(comp[y as int] == l);
        let e = choose|e: int| 0 <= e < xs.len() && #[trigger] xs[e] == y;
        assert(t.empresas@[e].cif@ == mkey(gs[u], j));
    }
    assert forall|e: int| 0 <= e < t.empresas@.len() implies membro_de_trama(gs, t, (#[trigger] t.empresas@[e]).cif@) && first_name_ok(
        gs,
        t.empresas@[e].cif@,
        t.empresas@[e].empresa_nome@,
    ) && t.empresas@[e].num_contratos == contract_set(gs, t.empresas@[e].cif@).len() by {
        let x = xs[e];
        assert(node_witness(gs, mids, gs.len() as int, x as int));
        let (u, j) = choose|u: int, j: int|
            0 <= u < gs.len() && retained(gs[u]) && 0 <= j < gs[u].membros@.len() && #[trigger] mids[u]@[j] == x;
        assert(comp_fn(comp)(mids[u]@[j] as int) == comp_fn(comp)(mids[u]@[0] as int));
        let p = choose|p: int| 0 <= p < t.utes@.len() && #[trigger] t.utes@[p] == u;
        assert(mkey(gs[t.utes@[p] as int], j) == t.empresas@[e].cif@);
        assert(first_name_ok(gs, nodes[x as int]@, nomes[x as int]@));
    }
}

/// As tramas montadas de todas as compoñentes son as compoñentes conexas.
#[verifier::rlimit(40)]
#[verifier::spinoff_prover]
proof fn lemma_tramas_ok(
    gs: Seq<UteGrupo>,
    nodes: Seq<String>,
    nomes: Seq<String>,
    mids: Seq<Vec<usize>>,
    comp: Seq<usize>,
    labs: Seq<usize>,
    xss: Seq<Seq<usize>>,
    ts: Seq<Trama>,
)
    requires
        base_ok(gs, nodes, nomes, mids, comp),
        labs.len() == ts.len(),
        xss.len() == ts.len(),
        incr(labs),
        forall|t: int| 0 <= t < ts.len() ==> #[trigger] trama_de(gs, nodes, nomes, mids, comp, labs[t], xss[t], ts[t]),
        forall|y: int| 0 <= y < comp.len() && comp[y] == y ==> exists|t: int| 0 <= t < labs.len() && #[trigger] labs[t] == y,
    ensures
        tramas_ok(gs, ts),
{
    assert forall|t: int| 0 <= t < ts.len() implies trama_ok(gs, #[trigger] ts[t]) by {
        assert(trama_de(gs, nodes, nomes, mids, comp, labs[t], xss[t], ts[t]));
        lemma_trama_ok(gs, nodes, nomes, mids, comp, labs[t], xss[t], ts[t]);
    }
    assert forall|u: int| 0 <= u < gs.len() && retained(gs[u]) implies exists|t: int| 0 <= t < ts.len() && #[trigger] ten_ute(ts[t], u) by {
        assert(mids[u]@.len() > 0);
        let l = comp[mids[u]@[0] as int];
        let t = choose|t: int| 0 <= t < labs.len() && #[trigger] labs[t] == l;
        assert(trama_de(gs, nodes, nomes, mids, comp, labs[t], xss[t], ts[t]));
        let p = choose|p: int| 0 <= p < ts[t].utes@.len() && #[trigger] ts[t].utes@[p] == u;
        assert(ten_ute(ts[t], u));
    }
    assert forall|t1: int, t2: int, p1: int, p2: int|
        0 <= t1 < ts.len() && 0 <= t2 < ts.len() && t1 != t2 && 0 <= p1 < ts[t1].utes@.len() && 0 <= p2
            < ts[t2].utes@.len() implies #[trigger] ts[t1].utes@[p1] != #[trigger] ts[t2].utes@[p2] by {
        assert(trama_de(gs, nodes, nomes, mids, comp, labs[t1], xss[t1], ts[t1]));
        assert(trama_de(gs, nodes, nomes, mids, comp, labs[t2], xss[t2], ts[t2]));
        if ts[t1].utes@[p1] == ts[t2].utes@[p2] {
            if t1 < t2 {
                assert(labs[t1] < labs[t2]);
            } else {
                assert(labs[t2] < labs[t1]);
            }
        }
    }
    assert forall|t1: int, t2: int, e1: int, e2: int|
        0 <= t1 < ts.len() && 0 <= t2 < ts.len() && 0 <= e1 < ts[t1].empresas@.len() && 0 <= e2
            < ts[t2].empresas@.len() && (t1 != t2 || e1 != e2) implies #[trigger] ts[t1].empresas@[e1].cif@
            != #[trigger] ts[t2].empresas@[e2].cif@ by {
        assert(trama_de(gs, nodes, nomes, mids, comp, labs[t1], xss[t1], ts[t1]));
        assert(trama_de(gs, nodes, nomes, mids, comp, labs[t2], xss[t2], ts[t2]));
        let x1 = xss[t1][e1];
        let x2 = xss[t2][e2];
        if x1 != x2 {
            if x1 < x2 {
                assert(nodes[x1 as int]@ != nodes[x2 as int]@);
            } else {
                assert(nodes[x2 as int]@ != nodes[x1 as int]@);
            }
        } else if t1 != t2 {
            if t1 < t2 {
                assert(labs[t1] < labs[t2]);
            } else {
                assert(labs[t2] < labs[t1]);
            }
        }
    }
    assert forall|lab: spec_fn(Seq<char>) -> int| #[trigger] respects_utes(lab, gs) implies
        forall|t: int, e1: int, e2: int|
            0 <= t < ts.len() && 0 <= e1 < ts[t].empresas@.len() && 0 <= e2 < ts[t].empresas@.len() ==> lab(
                #[trigger] ts[t].empresas@[e1].cif@,
            ) == lab(#[trigger] ts[t].empresas@[e2].cif@) by {
        let nlab = |x: int| lab(nodes[x]@);
        assert forall|u: int, j: int|
            0 <= u < mids.len() && 0 <= j < mids[u]@.len() && before(u, j, mids.len() as int, 0) implies nlab(
            #[trigger] mids[u]@[j] as int) == nlab(mids[u]@[0] as int) by {
            assert(retained(gs[u]));
            assert(lab(mkey(gs[u], j)) == lab(mkey(gs[u], 0)));
        }
        assert(respects_groups(nlab, mids, mids.len() as int, 0));
        assert forall|t: int, e1: int, e2: int|
            0 <= t < ts.len() && 0 <= e1 < ts[t].empresas@.len() && 0 <= e2 < ts[t].empresas@.len() implies lab(
                #[trigger] ts[t].empresas@[e1].cif@,
            ) == lab(#[trigger] ts[t].empresas@[e2].cif@) by {
            assert(trama_de(gs, nodes, nomes, mids, comp, labs[t], xss[t], ts[t]));
            let x1 = xss[t][e1] as int;
            let x2 = xss[t][e2] as int;
            assert(comp[x1] == comp[x2]);
            assert(nlab(x1) == nlab(x2));
        }
    }
}

/// Reordenar as tramas conserva a súa boa formación.
proof fn lemma_tramas_ok_perm(gs: Seq<UteGrupo>, ts: Seq<Trama>, rs: Seq<Trama>, p: Seq<int>, q: Seq<int>)
    requires
        tramas_ok(gs, ts),
        perm_of(rs, ts, p, q),
    ensures
        tramas_ok(gs, rs),
{
    assert forall|t: int| 0 <= t < rs.len() implies trama_ok(gs, #[trigger] rs[t]) by {
        assert(rs[t] == ts[p[t]]);
    }
    assert forall|u: int| 0 <= u < gs.len() && retained(gs[u]) implies exists|t: int| 0 <= t < rs.len() && #[trigger] ten_ute(rs[t], u) by {
        let t = choose|t: int| 0 <= t < ts.len() && #[trigger] ten_ute(ts[t], u);
        assert(rs[q[t]] == ts[t]);
    }
    assert forall|t1: int, t2: int, p1: int, p2: int|
        0 <= t1 < rs.len() && 0 <= t2 < rs.len() && t1 != t2 && 0 <= p1 < rs[t1].utes@.len() && 0 <= p2
            < rs[t2].utes@.len() implies #[trigger] rs[t1].utes@[p1] != #[trigger] rs[t2].utes@[p2] by {
        assert(rs[t1] == ts[p[t1]] && rs[t2] == ts[p[t2]]);
        assert(p[t1] != p[t2]);
        assert(ts[p[t1]].utes@[p1] != ts[p[t2]].utes@[p2]);
    }
    assert forall|t1: int, t2: int, e1: int, e2: int|
        0 <= t1 < rs.len() && 0 <= t2 < rs.len() && 0 <= e1 < rs[t1].empresas@.len() && 0 <= e2
            < rs[t2].empresas@.len() && (t1 != t2 || e1 != e2) implies #[trigger] rs[t1].empresas@[e1].cif@
            != #[trigger] rs[t2].empresas@[e2].cif@ by {
        assert(rs[t1] == ts[p[t1]] && rs[t2] == ts[p[t2]]);
        if t1 != t2 {
            assert(p[t1] != p[t2]);
        }
        assert(ts[p[t1]].empresas@[e1].cif@ != ts[p[t2]].empresas@[e2].cif@);
    }
    assert forall|lab: spec_fn(Seq<char>) -> int| #[trigger] respects_utes(lab, gs) implies
        forall|t: int, e1: int, e2: int|
            0 <= t < rs.len() && 0 <= e1 < rs[t].empresas@.len() && 0 <= e2 < rs[t].empresas@.len() ==> lab(
                #[trigger] rs[t].empresas@[e1].cif@,
            ) == lab(#[trigger] rs[t].empresas@[e2].cif@) by {
        assert forall|t: int, e1: int, e2: int|
            0 <= t < rs.len() && 0 <= e1 < rs[t].empresas@.len() && 0 <= e2 < rs[t].empresas@.len() implies lab(
                #[trigger] rs[t].empresas@[e1].cif@,
            ) == lab(#[trigger] rs[t].empresas@[e2].cif@) by {
            assert(rs[t] == ts[p[t]]);
            assert(lab(ts[p[t]].empresas@[e1].cif@) == lab(ts[p[t]].empresas@[e2].cif@));
        }
    }
}

/// Grupos (tramas) de razóns sociais que concorreron xuntas nunha mesma UTE:
/// as compoñentes conexas do grafo empresa↔empresa no que a aresta é a
/// coparticipación nunha UTE con polo menos dúas empresas distintas. As tramas
/// van das máis grandes ás máis pequenas (por número de empresas e, a igualdade,
/// por contratos sumados).
pub fn tramas(gs: &Vec<UteGrupo>) -> (ts: Vec<Trama>)
    requires
        gs@.len() <= i64::MAX,
    ensures
        tramas_ok(gs@, ts@),
        tramas_ordenadas(ts@),
        forall|a: int, b: int|
            0 <= a < b < ts@.len() ==> (#[trigger] ts@[a]).empresas@.len() >= (#[trigger] ts@[b]).empresas@.len(),
        forall|a: int, b: int|
            0 <= a < b < ts@.len() && (#[trigger] ts@[a]).empresas@.len() == (#[trigger] ts@[b]).empresas@.len()
                ==> suma_contratos(ts@[a].empresas@) >= suma_contratos(ts@[b].empresas@),
        forall|t: int, a: int, b: int|
            0 <= t < ts@.len() && 0 <= a < b < ts@[t].empresas@.len() ==> lex_le(
                str_lowercase((#[trigger] ts@[t].empresas@[a]).empresa_nome@),
                str_lowercase((#[trigger] ts@[t].empresas@[b]).empresa_nome@),
            ),
        forall|t: int, a: int, b: int|
            0 <= t < ts@.len() && 0 <= a < b < ts@[t].contratos@.len() ==> lex_le(
                gs@[(#[trigger] ts@[t].contratos@[b]) as int].data_iso@,
                gs@[(#[trigger] ts@[t].contratos@[a]) as int].data_iso@,
            ),
{
    let (nodes, nomes, mids) = indexa_nodos(gs);
    proof {
        assert forall|u: int, j: int| 0 <= u < mids@.len() && 0 <= j < mids@[u]@.len() implies #[trigger] mids@[u]@[j] < nodes@.len() by {
            if !retained(gs@[u]) {
                assert(mids@[u]@.len() == 0);
            }
        }
    }
    let comp = componentes(nodes.len(), &mids);
    let mut out: Vec<Trama> = Vec::new();
    let ghost mut labs: Seq<usize> = Seq::empty();
    let ghost mut xss: Seq<Seq<usize>> = Seq::empty();
    let mut x: usize = 0;
    while x < comp.len()
        invariant
            base_ok(gs@, nodes@, nomes@, mids@, comp@),
            x <= comp@.len(),
            labs.len() == out@.len(),
            xss.len() == out@.len(),
            incr(labs),
            forall|t: int| 0 <= t < labs.len() ==> (#[trigger] labs[t]) < x,
            forall|t: int| 0 <= t < out@.len() ==> #[trigger] trama_de(gs@, nodes@, nomes@, mids@, comp@, labs[t], xss[t], out@[t]),
            forall|y: int| 0 <= y < x && comp@[y] == y ==> exists|t: int| 0 <= t < labs.len() && #[trigger] labs[t] == y,
        decreases comp.len() - x,
    {
        if comp[x] == x {
            let t = monta_trama(gs, &nodes, &nomes, &mids, &comp, x);
            let ghost old_out = out@;
            let ghost old_labs = labs;
            proof {
                let xs = choose|xs: Seq<usize>| #[trigger] trama_de(gs@, nodes@, nomes@, mids@, comp@, x, xs, t);
                labs = labs.push(x);
                xss = xss.push(xs);
            }
            out.push(t);
            proof {
                assert forall|t2: int| 0 <= t2 < out@.len() implies #[trigger] trama_de(gs@, nodes@, nomes@, mids@, comp@, labs[t2], xss[t2], out@[t2]) by {
                    if t2 < old_out.len() {
                        assert(out@[t2] == old_out[t2]);
                    }
                }
                assert forall|y: int| 0 <= y < x + 1 && comp@[y] == y implies exists|t2: int| 0 <= t2 < labs.len() && #[trigger] labs[t2] == y by {
                    if y < x {
                        let t2 = choose|t2: int| 0 <= t2 < old_labs.len() && #[trigger] old_labs[t2] == y;
                        assert(labs[t2] == old_labs[t2]);
                    } else {
                        assert(labs[old_labs.len() as int] == y);
                    }
                }
            }
        }
        x = x + 1;
    }
    proof {
        lemma_tramas_ok(gs@, nodes@, nomes@, mids@, comp@, labs, xss, out@);
    }
    let ghost antes = out@;
    let r = ordena_tramas(out);
    proof {
        let (p, q) = choose|p: Seq<int>, q: Seq<int>| #[trigger] perm_of(r@, antes, p, q);
        lemma_tramas_ok_perm(gs@, antes, r@, p, q);
        lemma_tramas_maiores_primeiro(gs@, r@);
        assert forall|t: int, a: int, b: int|
            0 <= t < r@.len() && 0 <= a < b < r@[t].empresas@.len() implies lex_le(
                str_lowercase((#[trigger] r@[t].empresas@[a]).empresa_nome@),
                str_lowercase((#[trigger] r@[t].empresas@[b]).empresa_nome@),
            ) by {
            assert(trama_ok(gs@, r@[t]));
            assert(lex_le(nome_orde(r@[t].empresas@[a]), nome_orde(r@[t].empresas@[b])));
        }
        assert forall|t: int, a: int, b: int|
            0 <= t < r@.len() && 0 <= a < b < r@[t].contratos@.len() implies lex_le(
                gs@[(#[trigger] r@[t].contratos@[b]) as int].data_iso@,
                gs@[(#[trigger] r@[t].contratos@[a]) as int].data_iso@,
            ) by {
            assert(trama_ok(gs@, r@[t]));
            assert(lex_le(data_de(gs@, r@[t].contratos@[b]), data_de(gs@, r@[t].contratos@[a])));
        }
    }
    r
}

proof fn lemma_first_per_contract_distintos(gs: Seq<UteGrupo>, us: Seq<usize>)
    ensures
        forall|k: int| 0 <= k < first_per_contract(gs, us).len() ==> exists|q: int|
            0 <= q < us.len() && us[q] == #[trigger] first_per_contract(gs, us)[k],
        forall|a: int, b: int|
            0 <= a < b < first_per_contract(gs, us).len() ==> cid(gs, #[trigger] first_per_contract(gs, us)[a]) != cid(
                gs,
                #[trigger] first_per_contract(gs, us)[b],
            ),
    decreases us.len(),
{
    if us.len() > 0 {
        let ud = us.drop_last();
        lemma_first_per_contract_distintos(gs, ud);
        let f0 = first_per_contract(gs, ud);
        let f = first_per_contract(gs, us);
        assert forall|k: int| 0 <= k < f0.len() implies exists|q: int| 0 <= q < us.len() && us[q] == #[trigger] f0[k] by {
            let q = choose|q: int| 0 <= q < ud.len() && ud[q] == f0[k];
            assert(us[q] == ud[q]);
        }
        if !(exists|q: int| 0 <= q < us.len() - 1 && #[trigger] cid(gs, us[q]) == cid(gs, us.last())) {
            assert(f == f0.push(us.last()));
            assert forall|k: int| 0 <= k < f.len() implies exists|q: int| 0 <= q < us.len() && us[q] == #[trigger] f[k] by {
                if k < f0.len() {
                    assert(f[k] == f0[k]);
                } else {
                    assert(us[us.len() - 1] == f[k]);
                }
            }
            assert forall|a: int, b: int| 0 <= a < b < f.len() implies cid(gs, #[trigger] f[a]) != cid(gs, #[trigger] f[b]) by {
                assert(f[a] == f0[a]);
                if b < f0.len() {
                    assert(f[b] == f0[b]);
                } else {
                    let q = choose|q: int| 0 <= q < ud.len() && ud[q] == f0[a];
                    assert(us[q] == ud[q]);
                    if cid(gs, f[a]) == cid(gs, f[b]) {
                        assert(cid(gs, us[q]) == cid(gs, us.last()));
                    }
                }
            }
        }
    }
}

/// Toda trama ten polo menos dúas empresas, só UTE con dúas empresas membro
/// distintas, e cada contrato aparece nela unha soa vez.
pub proof fn lemma_trama_minima(gs: Seq<UteGrupo>, t: Trama)
    requires
        trama_ok(gs, t),
    ensures
        t.empresas@.len() >= 2,
        forall|p: int| 0 <= p < t.utes@.len() ==> retained(gs[#[trigger] t.utes@[p] as int]),
        forall|a: int, b: int|
            0 <= a < t.contratos@.len() && 0 <= b < t.contratos@.len() && a != b ==> cid(gs, #[trigger] t.contratos@[a])
                != cid(gs, #[trigger] t.contratos@[b]),
{
    let g = gs[t.utes@[0] as int];
    let j = choose|j: int| 0 < j < g.membros@.len() && #[trigger] mkey(g, j) != mkey(g, 0);
    assert(ten_empresa(t, mkey(g, j)));
    assert(ten_empresa(t, mkey(g, 0)));
    let e1 = choose|e: int| 0 <= e < t.empresas@.len() && #[trigger] t.empresas@[e].cif@ == mkey(g, j);
    let e0 = choose|e: int| 0 <= e < t.empresas@.len() && #[trigger] t.empresas@[e].cif@ == mkey(g, 0);
    assert(e1 != e0);
    let f = first_per_contract(gs, t.utes@);
    lemma_first_per_contract_distintos(gs, t.utes@);
    let (p, q) = choose|p: Seq<int>, q: Seq<int>|
        #[trigger] perm_of(t.contratos@, f, p, q) && forall|a: int, b: int|
            0 <= a < b < t.contratos@.len() && data_de(gs, t.contratos@[a]) == data_de(gs, t.contratos@[b]) ==> #[trigger] p[a]
                < #[trigger] p[b];
    assert forall|a: int, b: int|
        0 <= a < t.contratos@.len() && 0 <= b < t.contratos@.len() && a != b implies cid(gs, #[trigger] t.contratos@[a])
            != cid(gs, #[trigger] t.contratos@[b]) by {
        assert(t.contratos@[a] == f[p[a]] && t.contratos@[b] == f[p[b]]);
        assert(p[a] != p[b]);
        if p[a] < p[b] {
            assert(cid(gs, f[p[a]]) != cid(gs, f[p[b]]));
        } else {
            assert(cid(gs, f[p[b]]) != cid(gs, f[p[a]]));
        }
    }
}

/// As tramas de `tramas` van das de máis empresas ás de menos e, entre as que
/// teñen o mesmo número de empresas, das de máis contratos sumados ás de menos.
pub proof fn lemma_tramas_maiores_primeiro(gs: Seq<UteGrupo>, ts: Seq<Trama>)
    requires
        tramas_ordenadas(ts),
    ensures
        forall|a: int, b: int|
            0 <= a < b < ts.len() ==> (#[trigger] ts[a]).empresas@.len() >= (#[trigger] ts[b]).empresas@.len(),
        forall|a: int, b: int|
            0 <= a < b < ts.len() && (#[trigger] ts[a]).empresas@.len() == (#[trigger] ts[b]).empresas@.len()
                ==> suma_contratos(ts[a].empresas@) >= suma_contratos(ts[b].empresas@),
{
    assert forall|a: int, b: int| 0 <= a < b < ts.len() implies (#[trigger] ts[a]).empresas@.len() >= (
    #[trigger] ts[b]).empresas@.len() by {
        assert(trama_antes(ts[a], ts[b]));
    }
    assert forall|a: int, b: int|
        0 <= a < b < ts.len() && (#[trigger] ts[a]).empresas@.len() == (#[trigger] ts[b]).empresas@.len() implies suma_contratos(
        ts[a].empresas@,
    ) >= suma_contratos(ts[b].empresas@) by {
        assert(trama_antes(ts[a], ts[b]));
    }
}

} // verus!
