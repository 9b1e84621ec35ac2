//! Decisións da interface do listado: orde ao premer nas cabeceiras, cabeceiras
//! de cada sub-pestana, carga por chuncos, progreso e textos de estado.

use vstd::prelude::*;
use crate::model::{SortColumn, TipoContrato};
use crate::sync::SyncResult;
use crate::consulta::DbStats;
use crate::importe::{dec_digits, decimal_digits};
use crate::text::{chars_of, string_of, is_infix, contains_chars};
use crate::model::{normalize_seq, normalize_chars};

verus! {

// ───────────────────────── Orde do listado ─────────────────────────

/// Orde tras premer na cabeceira `premida`: a mesma columna inverte o sentido;
/// unha columna nova ordénase no seu sentido por defecto.
pub open spec fn alterna_spec(col: SortColumn, asc: bool, premida: SortColumn) -> (SortColumn, bool) {
    if col == premida {
        (col, !asc)
    } else {
        (premida, !premida.is_numeric())
    }
}

/// Orde tras premer na cabeceira dunha columna.
pub fn alterna_orde(col: SortColumn, asc: bool, premida: SortColumn) -> (r: (SortColumn, bool))
    ensures
        r == alterna_spec(col, asc, premida),
{
    if col == premida {
        (col, !asc)
    } else {
        (premida, premida.default_asc())
    }
}

/// Premer dúas veces na mesma cabeceira deixa a orde como estaba.
pub proof fn lemma_alterna_dobre(col: SortColumn, asc: bool)
    ensures
        alterna_spec(alterna_spec(col, asc, col).0, alterna_spec(col, asc, col).1, col) == (col, asc),
{
}

/// Premer unha cabeceira sempre ordena por esa columna.
pub proof fn lemma_alterna_columna(col: SortColumn, asc: bool, premida: SortColumn)
    ensures
        alterna_spec(col, asc, premida).0 == premida,
{
}

/// Premer unha columna distinta da actual ordena as columnas de números e datas
/// (ID, data, importe e importe de resolución) de maior a menor e as de texto
/// (obxecto, estado, organismo e adxudicatario) de A a Z; premer a mesma
/// columna inverte o sentido.
pub proof fn lemma_alterna_sentido(col: SortColumn, asc: bool, premida: SortColumn)
    ensures
        col != premida ==> (alterna_spec(col, asc, premida).1 == false <==> (premida == SortColumn::Id || premida
            == SortColumn::Data || premida == SortColumn::Importe || premida == SortColumn::ImporteResolucion)),
        col == premida ==> alterna_spec(col, asc, premida).1 == !asc,
{
}

/// Cabeceiras do listado: (título, columna de orde). Nos contratos menores as
/// columnas quinta e oitava son o NIF e a duración, que non se ordenan.
pub open spec fn cabeceiras_spec(tipo: TipoContrato) -> Seq<(Seq<char>, Option<SortColumn>)> {
    let menor = tipo == TipoContrato::Menor;
    seq![
        ("ID"@, Some(SortColumn::Id)),
        ("Data"@, Some(SortColumn::Data)),
        ("Obxecto"@, Some(SortColumn::Obxecto)),
        ("Importe"@, Some(SortColumn::Importe)),
        if menor { ("NIF"@, None) } else { ("Estado"@, Some(SortColumn::Estado)) },
        ("Organismo"@, Some(SortColumn::Organismo)),
        ("Adxudicatario"@, Some(SortColumn::Adxudicatario)),
        if menor { ("Duración"@, None) } else { ("Imp. resolución"@, Some(SortColumn::ImporteResolucion)) }
    ]
}

/// Cabeceiras do listado da sub-pestana.
pub fn cabeceiras(tipo: TipoContrato) -> (r: Vec<(&'static str, Option<SortColumn>)>)
    ensures
        r@.len() == cabeceiras_spec(tipo).len(),
        forall|k: int| 0 <= k < r@.len() ==> (#[trigger] r@[k]).0@ == cabeceiras_spec(tipo)[k].0 && r@[k].1
            == cabeceiras_spec(tipo)[k].1,
{
    let menor = tipo == TipoContrato::Menor;
    let mut v: Vec<(&'static str, Option<SortColumn>)> = Vec::new();
    v.push(("ID", Some(SortColumn::Id)));
    v.push(("Data", Some(SortColumn::Data)));
    v.push(("Obxecto", Some(SortColumn::Obxecto)));
    v.push(("Importe", Some(SortColumn::Importe)));
    if menor {
        v.push(("NIF", None));
    } else {
        v.push(("Estado", Some(SortColumn::Estado)));
    }
    v.push(("Organismo", Some(SortColumn::Organismo)));
    v.push(("Adxudicatario", Some(SortColumn::Adxudicatario)));
    if menor {
        v.push(("Duración", None));
    } else {
        v.push(("Imp. resolución", Some(SortColumn::ImporteResolucion)));
    }
    v
}

/// Texto da cabeceira: o título e, se é a columna activa, a frecha do sentido.
pub open spec fn etiqueta_spec(titulo: Seq<char>, activa: bool, asc: bool) -> Seq<char> {
    if activa {
        titulo + seq![' ', if asc { '▲' } else { '▼' }]
    } else {
        titulo
    }
}

/// Texto da cabeceira dunha columna.
pub fn etiqueta_cabeceira(titulo: &str, activa: bool, asc: bool) -> (r: String)
    ensures
        r@ == etiqueta_spec(titulo@, activa, asc),
{
    let mut v = chars_of(titulo);
    if activa {
        v.push(' ');
        v.push(if asc { '▲' } else { '▼' });
    }
    string_of(v.as_slice())
}

// ───────────────────────── Carga por chuncos ─────────────────────────

/// Filas por consulta na carga progresiva das táboas.
pub const CHUNK: usize = 8000;

/// Chunco e posición dentro del da fila `i`.
pub fn chunco(i: usize) -> (r: (usize, usize))
    ensures
        r.0 == i / CHUNK,
        r.1 == i % CHUNK,
        r.0 * CHUNK + r.1 == i,
        r.1 < CHUNK,
{
    (i / CHUNK, i % CHUNK)
}

/// Progreso que se amosa: o feito e o total, se o total é coñecido.
pub fn progreso(done: usize, total: usize) -> (r: Option<(usize, usize)>)
    ensures
        r == (if total > 0 { Some((done, total)) } else { None }),
{
    if total > 0 {
        Some((done, total))
    } else {
        None
    }
}

// ───────────────────────── Textos de estado ─────────────────────────

/// Texto decimal dun enteiro con signo.
pub open spec fn int_text(n: int) -> Seq<char> {
    if n < 0 {
        seq!['-'] + dec_digits((-n) as nat)
    } else {
        dec_digits(n as nat)
    }
}

fn push_int(out: &mut Vec<char>, n: i64)
    ensures
        final(out)@ == old(out)@ + int_text(n as int),
{
    if n < 0 {
        out.push('-');
        let a: u64 = if n == i64::MIN { 0x8000_0000_0000_0000u64 } else { (-n) as u64 };
        let mut d = decimal_digits(a);
        out.append(&mut d);
    } else {
        let mut d = decimal_digits(n as u64);
        out.append(&mut d);
    }
}

fn push_nat(out: &mut Vec<char>, n: usize)
    ensures
        final(out)@ == old(out)@ + dec_digits(n as nat),
{
    let mut d = decimal_digits(n as u64);
    out.append(&mut d);
}

fn push_txt(out: &mut Vec<char>, s: &str)
    ensures
        final(out)@ == old(out)@ + s@,
{
    let mut v = chars_of(s);
    out.append(&mut v);
}

/// Resumo dunha importación rematada.
pub open spec fn resumo_spec(r: SyncResult) -> Seq<char> {
    "Importación rematada · "@ + dec_digits(r.licitacions as nat) + " licitacións ("@ + dec_digits(r.novos as nat)
        + " novas · "@ + dec_digits(r.actualizados as nat) + " actualizadas · "@ + dec_digits(r.saltados as nat)
        + " saltadas · "@ + dec_digits(r.detalles_descargados as nat) + " detalles) · "@ + dec_digits(
        r.menores as nat,
    ) + " contratos menores · "@ + dec_digits(r.erros as nat) + " erros"@
}

/// Texto de estado ao rematar unha importación.
pub fn resumo_importacion(r: &SyncResult) -> (s: String)
    ensures
        s@ == resumo_spec(*r),
{
    let mut v: Vec<char> = Vec::new();
    push_txt(&mut v, "Importación rematada · ");
    push_nat(&mut v, r.licitacions);
    push_txt(&mut v, " licitacións (");
    push_nat(&mut v, r.novos);
    push_txt(&mut v, " novas · ");
    push_nat(&mut v, r.actualizados);
    push_txt(&mut v, " actualizadas · ");
    push_nat(&mut v, r.saltados);
    push_txt(&mut v, " saltadas · ");
    push_nat(&mut v, r.detalles_descargados);
    push_txt(&mut v, " detalles) · ");
    push_nat(&mut v, r.menores);
    push_txt(&mut v, " contratos menores · ");
    push_nat(&mut v, r.erros);
    push_txt(&mut v, " erros");
    assert(v@ =~= resumo_spec(*r));
    string_of(v.as_slice())
}

/// Información da base de datos local para a barra superior.
pub open spec fn info_bd_spec(s: DbStats) -> Seq<char> {
    "BD: "@ + int_text(s.total as int) + " contratos · "@ + int_text(s.con_detalle as int) + " con detalle"@ + match s.ultima_sync {
        Some(u) => " · última importación: "@ + u@,
        None => Seq::empty(),
    }
}

/// Información da base de datos local para a barra superior.
pub fn info_bd(s: &DbStats) -> (r: String)
    ensures
        r@ == info_bd_spec(*s),
{
    let mut v: Vec<char> = Vec::new();
    push_txt(&mut v, "BD: ");
    push_int(&mut v, s.total);
    push_txt(&mut v, " contratos · ");
    push_int(&mut v, s.con_detalle);
    push_txt(&mut v, " con detalle");
    match &s.ultima_sync {
        Some(u) => {
            push_txt(&mut v, " · última importación: ");
            push_txt(&mut v, u.as_str());
        },
        None => {},
    }
    assert(v@ =~= info_bd_spec(*s));
    string_of(v.as_slice())
}

// ───────────────────────── UTE dun contrato ─────────────────────────

/// Unha empresa membro dunha UTE para a ficha do contrato.
#[derive(Debug, Clone, Default)]
pub struct UteMembroVista {
    pub nome: String,
    pub cif: String,
}

/// A composición dunha UTE adxudicataria, para amosar na ficha do contrato.
#[derive(Debug, Clone, Default)]
pub struct UteDetalle {
    pub ute_nome: String,
    pub membros: Vec<UteMembroVista>,
}

/// Nomes das UTE distintas das filas `(ute, nome, cif)`, na orde da súa primeira aparición.
pub open spec fn nomes_utes(rows: Seq<(String, String, String)>) -> Seq<Seq<char>>
    decreases rows.len(),
{
    if rows.len() == 0 {
        Seq::empty()
    } else {
        let p = nomes_utes(rows.drop_last());
        if p.contains(rows.last().0@) {
            p
        } else {
            p.push(rows.last().0@)
        }
    }
}

/// Membros `(nome, cif)` da UTE de nome `u` nas filas, na súa orde.
pub open spec fn membros_ute(rows: Seq<(String, String, String)>, u: Seq<char>) -> Seq<(Seq<char>, Seq<char>)>
    decreases rows.len(),
{
    if rows.len() == 0 {
        Seq::empty()
    } else {
        let p = membros_ute(rows.drop_last(), u);
        if rows.last().0@ == u {
            p.push((rows.last().1@, rows.last().2@))
        } else {
            p
        }
    }
}

/// Vista dos membros dunha UTE.
pub open spec fn membros_view(ms: Seq<UteMembroVista>) -> Seq<(Seq<char>, Seq<char>)> {
    ms.map_values(|m: UteMembroVista| (m.nome@, m.cif@))
}

fn posicion(out: &Vec<UteDetalle>, u: &String) -> (r: Option<usize>)
    ensures
        match r {
            Some(k) => k < out@.len() && out@[k as int].ute_nome@ == u@,
            None => forall|k: int| 0 <= k < out@.len() ==> (#[trigger] out@[k]).ute_nome@ != u@,
        },
{
    let mut k: usize = 0;
    while k < out.len()
        invariant
            k <= out@.len(),
            forall|q: int| 0 <= q < k ==> (#[trigger] out@[q]).ute_nome@ != u@,
        decreases out.len() - k,
    {
        if out[k].ute_nome == *u {
            return Some(k);
        }
        k = k + 1;
    }
    None
}

/// Agrupa as filas `(ute, nome, cif)` da composición das UTE dun contrato: unha
/// entrada por UTE, na orde da súa primeira aparición, cos seus membros en orde.
pub fn agrupa_utes_contrato(rows: &Vec<(String, String, String)>) -> (r: Vec<UteDetalle>)
    ensures
        r@.len() == nomes_utes(rows@).len(),
        forall|k: int| 0 <= k < r@.len() ==> (#[trigger] r@[k]).ute_nome@ == nomes_utes(rows@)[k] && membros_view(
            r@[k].membros@,
        ) == membros_ute(rows@, nomes_utes(rows@)[k]),
{
    let mut out: Vec<UteDetalle> = Vec::new();
    let mut i: usize = 0;
    while i < rows.len()
        invariant
            i <= rows@.len(),
            out@.len() == nomes_utes(rows@.take(i as int)).len(),
            forall|k: int| 0 <= k < out@.len() ==> (#[trigger] out@[k]).ute_nome@ == nomes_utes(rows@.take(i as int))[k]
                && membros_view(out@[k].membros@) == membros_ute(rows@.take(i as int), nomes_utes(rows@.take(i as int))[k]),
        decreases rows.len() - i,
    {
        let ghost pre = rows@.take(i as int);
        let ghost pre1 = rows@.take(i + 1);
        assert(pre1.drop_last() == pre);
        assert(pre1.last() == rows@[i as int]);
        let m = UteMembroVista { nome: rows[i].1.clone(), cif: rows[i].2.clone() };
        let ghost mv = (m.nome@, m.cif@);
        match posicion(&out, &rows[i].0) {
            Some(k) => {
                proof {
                    assert(nomes_utes(pre).contains(rows@[i as int].0@)) by {
                        assert(nomes_utes(pre)[k as int] == rows@[i as int].0@);
                    }
                    assert(nomes_utes(pre1) == nomes_utes(pre));
                }
                let ghost old_out = out@;
                let mut ud = out.remove(k);
                ud.membros.push(m);
                out.insert(k, ud);
                proof {
                    assert forall|q: int| 0 <= q < out@.len() implies (#[trigger] out@[q]).ute_nome@ == nomes_utes(pre1)[q]
                        && membros_view(out@[q].membros@) == membros_ute(pre1, nomes_utes(pre1)[q]) by {
                        if q == k {
                            assert(membros_view(out@[q].membros@) =~= membros_view(old_out[q].membros@).push(mv));
                        } else {
                            assert(out@[q] == old_out[q]);
                            assert(nomes_utes(pre)[q] != rows@[i as int].0@) by {
                                lemma_nomes_distintos(pre, q, k as int);
                            }
                        }
                    }
                }
            },
            None => {
                proof {
                    assert(!nomes_utes(pre).contains(rows@[i as int].0@)) by {
                        if nomes_utes(pre).contains(rows@[i as int].0@) {
                            let q = choose|q: int| 0 <= q < nomes_utes(pre).len() && nomes_utes(pre)[q] == rows@[i as int].0@;
                            assert(out@[q].ute_nome@ == nomes_utes(pre)[q]);
                        }
                    }
                    lemma_membros_ausente(pre, rows@[i as int].0@);
                }
                let ghost old_out = out@;
                let mut ms: Vec<UteMembroVista> = Vec::new();
                ms.push(m);
                out.push(UteDetalle { ute_nome: rows[i].0.clone(), membros: ms });
                proof {
                    assert forall|q: int| 0 <= q < out@.len() implies (#[trigger] out@[q]).ute_nome@ == nomes_utes(pre1)[q]
                        && membros_view(out@[q].membros@) == membros_ute(pre1, nomes_utes(pre1)[q]) by {
                        if q < old_out.len() {
                            assert(out@[q] == old_out[q]);
                            assert(nomes_utes(pre)[q] != rows@[i as int].0@) by {
                                assert(nomes_utes(pre).contains(nomes_utes(pre)[q]));
                            }
                        } else {
                            assert(membros_view(out@[q].membros@) =~= seq![mv]);
                            assert(membros_ute(pre, rows@[i as int].0@) =~= Seq::empty());
                        }
                    }
                }
            },
        }
        i = i + 1;
    }
    proof {
        assert(rows@.take(rows@.len() as int) == rows@);
    }
    out
}

/// Os nomes de UTE distintos non se repiten.
proof fn lemma_nomes_distintos(rows: Seq<(String, String, String)>, a: int, b: int)
    requires
        0 <= a < nomes_utes(rows).len(),
        0 <= b < nomes_utes(rows).len(),
        a != b,
    ensures
        nomes_utes(rows)[a] != nomes_utes(rows)[b],
    decreases rows.len(),
{
    let p = nomes_utes(rows.drop_last());
    if rows.len() > 0 {
        if a < p.len() && b < p.len() {
            lemma_nomes_distintos(rows.drop_last(), a, b);
        } else if a >= p.len() {
            assert(!p.contains(rows.last().0@));
            assert(p.contains(p[b]));
        } else {
            assert(!p.contains(rows.last().0@));
            assert(p.contains(p[a]));
        }
    }
}

/// Unha UTE que non aparece nas filas non ten membros nelas.
proof fn lemma_membros_ausente(rows: Seq<(String, String, String)>, u: Seq<char>)
    requires
        !nomes_utes(rows).contains(u),
    ensures
        membros_ute(rows, u) == Seq::<(Seq<char>, Seq<char>)>::empty(),
    decreases rows.len(),
{
    if rows.len() > 0 {
        let p = nomes_utes(rows.drop_last());
        assert(!p.contains(u)) by {
            if p.contains(u) {
                let q = choose|q: int| 0 <= q < p.len() && p[q] == u;
                if p.contains(rows.last().0@) {
                    assert(nomes_utes(rows)[q] == u);
                } else {
                    assert(nomes_utes(rows) == p.push(rows.last().0@));
                    assert(nomes_utes(rows)[q] == u);
                }
            }
        }
        if rows.last().0@ == u {
            if p.contains(u) {
            } else {
                assert(nomes_utes(rows)[p.len() as int] == u);
            }
        }
        lemma_membros_ausente(rows.drop_last(), u);
    }
}

// ───────────────────────── Despregables con buscador ─────────────────────────

/// O texto amósase co filtro de busca dado (xa normalizado): sen filtro, ou se
/// o texto normalizado o contén.
pub open spec fn visible(v: Seq<char>, f: Seq<char>) -> bool {
    f.len() == 0 || is_infix(normalize_seq(v), f)
}

/// Valores que se amosan co filtro, na súa orde.
pub open spec fn valores_visibles(vs: Seq<String>, f: Seq<char>) -> Seq<String>
    decreases vs.len(),
{
    if vs.len() == 0 {
        Seq::empty()
    } else if visible(vs.last()@, f) {
        valores_visibles(vs.drop_last(), f).push(vs.last())
    } else {
        valores_visibles(vs.drop_last(), f)
    }
}

fn visible_exec(v: &String, f: &Vec<char>) -> (r: bool)
    ensures
        r == visible(v@, f@),
{
    if f.len() == 0 {
        return true;
    }
    let cv = chars_of(v.as_str());
    let n = normalize_chars(&cv);
    contains_chars(&n, f)
}

/// Valores dun despregable que casan co texto de busca (insensible a
/// maiúsculas e acentos), na súa orde.
pub fn filtra_valores(values: &Vec<String>, filtro: &str) -> (r: Vec<String>)
    ensures
        r@.len() == valores_visibles(values@, normalize_seq(filtro@)).len(),
        forall|k: int| 0 <= k < r@.len() ==> (#[trigger] r@[k])@ == valores_visibles(values@, normalize_seq(filtro@))[k]@,
{
    let fv = chars_of(filtro);
    let f = normalize_chars(&fv);
    let mut out: Vec<String> = Vec::new();
    let mut i: usize = 0;
    while i < values.len()
        invariant
            i <= values@.len(),
            f@ == normalize_seq(filtro@),
            out@.len() == valores_visibles(values@.take(i as int), f@).len(),
            forall|k: int| 0 <= k < out@.len() ==> (#[trigger] out@[k])@ == valores_visibles(values@.take(i as int), f@)[k]@,
        decreases values.len() - i,
    {
        assert(values@.take(i + 1).drop_last() == values@.take(i as int));
        if visible_exec(&values[i], &f) {
            out.push(values[i].clone());
        }
        i = i + 1;
    }
    assert(values@.take(values@.len() as int) == values@);
    out
}

/// Opcións `(código, etiqueta)` que se amosan co filtro (pola etiqueta), na súa orde.
pub open spec fn opcions_visibles(os: Seq<(String, String)>, f: Seq<char>) -> Seq<(String, String)>
    decreases os.len(),
{
    if os.len() == 0 {
        Seq::empty()
    } else if visible(os.last().1@, f) {
        opcions_visibles(os.drop_last(), f).push(os.last())
    } else {
        opcions_visibles(os.drop_last(), f)
    }
}

/// Opcións `(código, etiqueta)` cuxa etiqueta casa co texto de busca, na súa orde.
pub fn filtra_opcions(options: &Vec<(String, String)>, filtro: &str) -> (r: Vec<(String, String)>)
    ensures
        r@.len() == opcions_visibles(options@, normalize_seq(filtro@)).len(),
        forall|k: int| 0 <= k < r@.len() ==> (#[trigger] r@[k]).0@ == opcions_visibles(options@, normalize_seq(filtro@))[k].0@
            && r@[k].1@ == opcions_visibles(options@, normalize_seq(filtro@))[k].1@,
{
    let fv = chars_of(filtro);
    let f = normalize_chars(&fv);
    let mut out: Vec<(String, String)> = Vec::new();
    let mut i: usize = 0;
    while i < options.len()
        invariant
            i <= options@.len(),
            f@ == normalize_seq(filtro@),
            out@.len() == opcions_visibles(options@.take(i as int), f@).len(),
            forall|k: int| 0 <= k < out@.len() ==> (#[trigger] out@[k]).0@ == opcions_visibles(options@.take(i as int), f@)[k].0@
                && out@[k].1@ == opcions_visibles(options@.take(i as int), f@)[k].1@,
        decreases options.len() - i,
    {
        assert(options@.take(i + 1).drop_last() == options@.take(i as int));
        if visible_exec(&options[i].1, &f) {
            out.push((options[i].0.clone(), options[i].1.clone()));
        }
        i = i + 1;
    }
    assert(options@.take(options@.len() as int) == options@);
    out
}

/// Texto do valor escollido nun despregable (`(todos)` se non hai ningún).
pub fn texto_seleccion(selected: &str) -> (r: String)
    ensures
        r@ == (if selected@.len() == 0 { "(todos)"@ } else { selected@ }),
{
    if selected.is_empty() {
        "(todos)".to_owned()
    } else {
        selected.to_owned()
    }
}

/// Etiqueta do código escollido: a da primeira opción con ese código, ou o
/// texto de marcador (`(todos)` se se permite non escoller, `(escolle…)` se non).
pub open spec fn etiqueta_codigo_spec(os: Seq<(String, String)>, selected: Seq<char>, permitir_todos: bool) -> Seq<char>
    decreases os.len(),
{
    if os.len() == 0 {
        if permitir_todos { "(todos)"@ } else { "(escolle…)"@ }
    } else if os[0].0@ == selected {
        os[0].1@
    } else {
        etiqueta_codigo_spec(os.drop_first(), selected, permitir_todos)
    }
}

/// Etiqueta do código escollido nun despregable de códigos.
pub fn etiqueta_de_codigo(options: &Vec<(String, String)>, selected: &str, permitir_todos: bool) -> (r: String)
    ensures
        r@ == etiqueta_codigo_spec(options@, selected@, permitir_todos),
{
    let mut i: usize = 0;
    proof {
        assert(options@.subrange(0, options@.len() as int) =~= options@);
    }
    while i < options.len()
        invariant
            i <= options@.len(),
            etiqueta_codigo_spec(options@, selected@, permitir_todos) == etiqueta_codigo_spec(
                options@.subrange(i as int, options@.len() as int),
                selected@,
                permitir_todos,
            ),
        decreases options.len() - i,
    {
        let ghost rest = options@.subrange(i as int, options@.len() as int);
        assert(rest[0] == options@[i as int]);
        if crate::model::str_eq(options[i].0.as_str(), selected) {
            return options[i].1.clone();
        }
        assert(rest.drop_first() =~= options@.subrange(i + 1, options@.len() as int));
        i = i + 1;
    }
    if permitir_todos {
        "(todos)".to_owned()
    } else {
        "(escolle…)".to_owned()
    }
}

/// Amósase o buscador nos despregables de máis de doce opcións.
pub fn con_buscador(n: usize) -> (r: bool)
    ensures
        r == (n > 12),
{
    n > 12
}

/// Filas de alto do despregable: as opcións (e `(todos)` se se ofrece), ata dez.
pub fn filas_despregable(n: usize, con_todos: bool) -> (r: usize)
    ensures
        r == (if n + (if con_todos { 1int } else { 0int }) < 10 { n + (if con_todos { 1int } else { 0int }) } else { 10 }),
{
    let extra: usize = if con_todos { 1 } else { 0 };
    if n < 10 - extra {
        n + extra
    } else {
        10
    }
}

/// Primeiro ano do despregable de anos.
pub const PRIMEIRO_ANO: i32 = 2008;

/// Anos do despregable, do actual ao 2008.
pub fn anos_despregable(actual: i32) -> (r: Vec<i32>)
    ensures
        r@.len() == (if actual >= PRIMEIRO_ANO { actual - PRIMEIRO_ANO + 1 } else { 0 }),
        forall|k: int| 0 <= k < r@.len() ==> #[trigger] r@[k] == actual - k,
{
    let mut out: Vec<i32> = Vec::new();
    let mut y: i32 = actual;
    while y >= PRIMEIRO_ANO
        invariant
            y <= actual,
            actual >= PRIMEIRO_ANO ==> y >= PRIMEIRO_ANO - 1,
            actual < PRIMEIRO_ANO ==> y == actual,
            out@.len() == actual - y,
            forall|k: int| 0 <= k < out@.len() ==> #[trigger] out@[k] == actual - k,
        decreases y - PRIMEIRO_ANO + 1,
    {
        out.push(y);
        y = y - 1;
    }
    out
}

} // verus!
