//! Ordes que a interface envía ao fío traballador e eventos que este devolve.

use vstd::prelude::*;
use crate::enrich::{EnrichMode, EnrichResult};
use crate::model::{FilterOptions, ImportParams, LocalFilters, Suggestion};
use crate::sync::SyncResult;
use crate::text::{chars_of, string_of};

verus! {

/// Ordes que a interface envía ao fío traballador.
pub enum Command {
    LoadOptions,
    /// Importa un organismo: licitacións (con detalle) e contratos menores do ano.
    Import(ImportParams),
    /// Vincula os adxudicatarios con datoscif e descarga os cargos das empresas.
    Enrich(EnrichMode),
    /// Resolve a man un caso de revisión: vincula o adxudicatario á entidade
    /// escollida (`Some`) ou descártao (`None`).
    ResolveMatch { adx_nome: String, escolla: Option<Suggestion> },
    /// Busca en vivo en datoscif (proceso asistido de revisión).
    SearchDatoscif { adx_nome: String, termo: String },
    /// Exporta o listado filtrado ao ficheiro da ruta dada.
    Export { path: String, filters: LocalFilters },
    /// Remata o bucle do fío para pechar limpamente a conexión SQLite.
    Shutdown,
}

/// Eventos que o fío traballador devolve á interface.
pub enum Event {
    Options(FilterOptions),
    SyncProgress { done: usize, total: usize, msg: String },
    SyncDone(SyncResult),
    EnrichDone(EnrichResult),
    /// Un caso de revisión resolveuse (vinculado a man ou descartado).
    RevisionResolved { adx_nome: String, vinculado: bool },
    /// Resultados dunha busca asistida en datoscif para un caso de revisión.
    DatoscifResults { adx_nome: String, suggestions: Vec<Suggestion> },
    /// Ruta do ficheiro exportado e número de filas.
    Exported(String, usize),
    Error(String),
    Log(String),
}

/// Resultado dunha orde executada polo fío traballador (o erro, como texto).
pub enum Resposta {
    Options(Result<FilterOptions, String>),
    Import(Result<SyncResult, String>),
    Enrich(Result<EnrichResult, String>),
    ResolveMatch { adx_nome: String, vinculado: bool, res: Result<(), String> },
    SearchDatoscif { adx_nome: String, termo: String, res: Result<Vec<Suggestion>, String> },
    Export { path: String, res: Result<usize, String> },
}

/// A orde remata o bucle do fío traballador.
pub fn remata(cmd: &Command) -> (r: bool)
    ensures
        r == (*cmd is Shutdown),
{
    match cmd {
        Command::Shutdown => true,
        _ => false,
    }
}

/// Mensaxe de erro: o prefixo, o texto e o erro.
pub open spec fn mensaxe(prefixo: Seq<char>, texto: Seq<char>, sufixo: Seq<char>, e: Seq<char>) -> Seq<char> {
    prefixo + texto + sufixo + e
}

fn compon(prefixo: &str, texto: &str, sufixo: &str, e: &str) -> (r: String)
    ensures
        r@ == mensaxe(prefixo@, texto@, sufixo@, e@),
{
    let mut v = chars_of(prefixo);
    let mut t = chars_of(texto);
    let mut s = chars_of(sufixo);
    let mut w = chars_of(e);
    v.append(&mut t);
    v.append(&mut s);
    v.append(&mut w);
    string_of(v.as_slice())
}

/// O evento corresponde á resposta: o resultado, ou o erro coa mensaxe da orde.
pub open spec fn evento_spec(r: Resposta, ev: Event) -> bool {
    match r {
        Resposta::Options(Ok(o)) => ev == Event::Options(o),
        Resposta::Options(Err(e)) => ev matches Event::Error(m) && m@ == mensaxe("Erro cargando filtros: "@, ""@, ""@, e@),
        Resposta::Import(Ok(x)) => ev == Event::SyncDone(x),
        Resposta::Import(Err(e)) => ev matches Event::Error(m) && m@ == mensaxe("Erro na importación: "@, ""@, ""@, e@),
        Resposta::Enrich(Ok(x)) => ev == Event::EnrichDone(x),
        Resposta::Enrich(Err(e)) => ev matches Event::Error(m) && m@ == mensaxe("Erro no enriquecemento: "@, ""@, ""@, e@),
        Resposta::ResolveMatch { adx_nome, vinculado, res: Ok(_) } => ev == Event::RevisionResolved { adx_nome, vinculado },
        Resposta::ResolveMatch { adx_nome, vinculado: _, res: Err(e) } => ev matches Event::Error(m) && m@ == mensaxe(
            "Erro resolvendo «"@,
            adx_nome@,
            "»: "@,
            e@,
        ),
        Resposta::SearchDatoscif { adx_nome, termo: _, res: Ok(suggestions) } => ev == Event::DatoscifResults {
            adx_nome,
            suggestions,
        },
        Resposta::SearchDatoscif { adx_nome: _, termo, res: Err(e) } => ev matches Event::Error(m) && m@ == mensaxe(
            "Erro buscando «"@,
            termo@,
            "»: "@,
            e@,
        ),
        Resposta::Export { path, res: Ok(n) } => ev == Event::Exported(path, n),
        Resposta::Export { path: _, res: Err(e) } => ev matches Event::Error(m) && m@ == mensaxe("Erro exportando: "@, ""@, ""@, e@),
    }
}

/// Evento que o fío traballador envía á interface tras executar unha orde.
pub fn evento(r: Resposta) -> (ev: Event)
    ensures
        evento_spec(r, ev),
{
    match r {
        Resposta::Options(Ok(o)) => Event::Options(o),
        Resposta::Options(Err(e)) => Event::Error(compon("Erro cargando filtros: ", "", "", e.as_str())),
        Resposta::Import(Ok(x)) => Event::SyncDone(x),
        Resposta::Import(Err(e)) => Event::Error(compon("Erro na importación: ", "", "", e.as_str())),
        Resposta::Enrich(Ok(x)) => Event::EnrichDone(x),
        Resposta::Enrich(Err(e)) => Event::Error(compon("Erro no enriquecemento: ", "", "", e.as_str())),
        Resposta::ResolveMatch { adx_nome, vinculado, res: Ok(_) } => Event::RevisionResolved { adx_nome, vinculado },
        Resposta::ResolveMatch { adx_nome, vinculado: _, res: Err(e) } => Event::Error(
            compon("Erro resolvendo «", adx_nome.as_str(), "»: ", e.as_str()),
        ),
        Resposta::SearchDatoscif { adx_nome, termo: _, res: Ok(suggestions) } => Event::DatoscifResults {
            adx_nome,
            suggestions,
        },
        Resposta::SearchDatoscif { adx_nome: _, termo, res: Err(e) } => Event::Error(
            compon("Erro buscando «", termo.as_str(), "»: ", e.as_str()),
        ),
        Resposta::Export { path, res: Ok(n) } => Event::Exported(path, n),
        Resposta::Export { path: _, res: Err(e) } => Event::Error(compon("Erro exportando: ", "", "", e.as_str())),
    }
}

/// Texto do erro dunha resposta, se a orde fallou.
pub open spec fn erro_de(r: Resposta) -> Option<Seq<char>> {
    match r {
        Resposta::Options(Err(e)) => Some(e@),
        Resposta::Import(Err(e)) => Some(e@),
        Resposta::Enrich(Err(e)) => Some(e@),
        Resposta::ResolveMatch { res: Err(e), .. } => Some(e@),
        Resposta::SearchDatoscif { res: Err(e), .. } => Some(e@),
        Resposta::Export { res: Err(e), .. } => Some(e@),
        _ => None,
    }
}

/// Lei: unha orde que fallou dá sempre un evento de erro cuxa mensaxe remata co
/// texto do erro (e, nas buscas e resolucións, nomea o termo ou o adxudicatario);
/// unha orde que saíu ben nunca dá un evento de erro.
pub proof fn lemma_evento_erros(r: Resposta, ev: Event)
    requires
        evento_spec(r, ev),
    ensures
        erro_de(r) is None ==> !(ev is Error),
        erro_de(r) matches Some(e) ==> (ev matches Event::Error(m) && m@.len() >= e.len() && m@.subrange(
            m@.len() - e.len(),
            m@.len() as int,
        ) == e),
        r matches Resposta::SearchDatoscif { termo, res: Err(_), .. } ==> (ev matches Event::Error(m) && exists|i: int|
            0 <= i && i + termo@.len() <= m@.len() && #[trigger] m@.subrange(i, i + termo@.len()) == termo@),
        r matches Resposta::ResolveMatch { adx_nome, res: Err(_), .. } ==> (ev matches Event::Error(m) && exists|i: int|
            0 <= i && i + adx_nome@.len() <= m@.len() && #[trigger] m@.subrange(i, i + adx_nome@.len()) == adx_nome@),
{
    match r {
        Resposta::Options(Err(e)) | Resposta::Import(Err(e)) | Resposta::Enrich(Err(e)) | Resposta::Export { res: Err(e), .. } => {
            if let Event::Error(m) = ev {
                assert(m@.subrange(m@.len() - e@.len(), m@.len() as int) =~= e@);
            }
        },
        Resposta::ResolveMatch { adx_nome, res: Err(e), .. } => {
            if let Event::Error(m) = ev {
                assert(m@.subrange(m@.len() - e@.len(), m@.len() as int) =~= e@);
                let p = "Erro resolvendo «"@;
                assert(m@.subrange(p.len() as int, (p.len() + adx_nome@.len()) as int) =~= adx_nome@);
            }
        },
        Resposta::SearchDatoscif { termo, res: Err(e), .. } => {
            if let Event::Error(m) = ev {
                assert(m@.subrange(m@.len() - e@.len(), m@.len() as int) =~= e@);
                let p = "Erro buscando «"@;
                assert(m@.subrange(p.len() as int, (p.len() + termo@.len()) as int) =~= termo@);
            }
        },
        _ => {},
    }
}

} // verus!
