//! Modelos de datos da aplicación e normalizacións de texto (buscas, claves de
//! empresa, NIF, estados).

use vstd::prelude::*;
use crate::text::{
    alfanumerico, minuscula, maiuscula, chars_of, collapse_whitespace,
    collapse_ws, colapsado, espazo, lemma_collapse_forma, lemma_collapse_fixo, is_ascii_char, ascii_lower,
    ascii_upper, is_ascii_upper, is_ascii_lower, is_ascii_digit, is_latin1_char, latin1_upper, latin1_lower, contains_chars, is_alphanumeric, is_infix, lowercase_of, lowercase_str,
    str_lowercase, string_of, uppercase_of,
};

verus! {

// ───────────────────────── Tipos de contrato ─────────────────────────

/// Tipo de contrato: licitación (procedemento ordinario) ou contrato menor.
#[derive(Debug, Clone, Copy, PartialEq, Eq, Structural, Default)]
pub enum TipoContrato {
    #[default]
    Licitacion,
    Menor,
}

impl TipoContrato {
    /// Texto gardado na BD para cada tipo.
    pub open spec fn db_text(self) -> Seq<char> {
        match self {
            TipoContrato::Licitacion => "licitacion"@,
            TipoContrato::Menor => "menor"@,
        }
    }

    /// Valor gardado na BD (columna `contracts.tipo`).
    pub fn as_str(self) -> (r: &'static str)
        ensures
            r@ == self.db_text(),
    {
        match self {
            TipoContrato::Licitacion => "licitacion",
            TipoContrato::Menor => "menor",
        }
    }

    /// Interpreta o texto gardado na BD: só `menor` é un contrato menor; calquera
    /// outro texto é unha licitación.
    pub fn from_db(s: &str) -> (r: TipoContrato)
        ensures
            r == (if s@ == "menor"@ {
                TipoContrato::Menor
            } else {
                TipoContrato::Licitacion
            }),
    {
        if str_eq(s, "menor") {
            TipoContrato::Menor
        } else {
            TipoContrato::Licitacion
        }
    }

    /// Etiqueta para a interface (sub-pestanas).
    pub fn etiqueta(self) -> (r: &'static str)
        ensures
            r@ == (match self {
                TipoContrato::Licitacion => "Licitacións"@,
                TipoContrato::Menor => "Contratos menores"@,
            }),
    {
        match self {
            TipoContrato::Licitacion => "Licitacións",
            TipoContrato::Menor => "Contratos menores",
        }
    }
}

/// Lei: ler da BD o texto gardado dun tipo devolve o mesmo tipo.
pub proof fn lemma_tipo_db_roundtrip(t: TipoContrato)
    ensures
        (if t.db_text() == "menor"@ {
            TipoContrato::Menor
        } else {
            TipoContrato::Licitacion
        }) == t,
{
    reveal_strlit("menor");
    reveal_strlit("licitacion");
    if t == TipoContrato::Licitacion {
        assert("licitacion"@[0] != "menor"@[0]);
    }
}

/// Igualdade de dúas cadeas carácter a carácter.
pub fn str_eq(a: &str, b: &str) -> (r: bool)
    ensures
        r == (a@ == b@),
{
    let va = chars_of(a);
    let vb = chars_of(b);
    chars_eq(&va, &vb)
}

/// Igualdade de dúas secuencias de caracteres.
pub fn chars_eq(va: &Vec<char>, vb: &Vec<char>) -> (r: bool)
    ensures
        r == (va@ == vb@),
{
    if va.len() != vb.len() {
        return false;
    }
    let mut i: usize = 0;
    while i < va.len()
        invariant
            va@.len() == vb@.len(),
            i <= va@.len(),
            forall|j: int| 0 <= j < i ==> va@[j] == vb@[j],
        decreases va.len() - i,
    {
        if va[i] != vb[i] {
            return false;
        }
        i = i + 1;
    }
    assert(va@ =~= vb@);
    true
}

// ───────────────────────── Estruturas de datos ─────────────────────────

/// Parámetros dunha importación: un organismo (o `org_id` é o valor de `organoL`,
/// que coincide co id da API) e o ano que acouta a busca de contratos menores
/// (as licitacións báixanse enteiras).
#[derive(Debug, Clone, Default)]
pub struct ImportParams {
    pub org_id: String,
    pub org_nome: String,
    pub ano: String,
}

/// Rexistro dun contrato para gardar no listado (cara á táboa `contracts`).
#[derive(Debug, Clone, Default)]
pub struct ContractSummary {
    pub id: String,
    pub tipo: TipoContrato,
    pub referencia: String,
    pub asunto: String,
    pub importe: String,
    pub estado: String,
    pub publicacion: String,
    pub cod_organismo: String,
    pub organismo: String,
}

/// Datos do detalle dun contrato (páxina `licitacion?N=...`). Os importes
/// gárdanse co texto tal como aparece na páxina; `extra` garda o resto de pares
/// `dt/dd` (etiqueta, valor) na orde en que aparecen, sen etiquetas repetidas.
#[derive(Debug, Clone, Default)]
pub struct ContractDetail {
    pub contract_id: String,
    pub referencia: String,
    pub obxecto: String,
    pub tipo_tramitacion: String,
    pub tipo_procedemento: String,
    pub tipo_contrato: String,
    /// Orzamento base de licitación, **con IVE**.
    pub orzamento_base: String,
    /// Valor estimado do contrato, **sen IVE**.
    pub valor_estimado: String,
    pub num_lotes: String,
    pub sistema_contratacion: String,
    pub observacions: String,
    pub data_difusion: String,
    pub sara: String,
    pub centralizada: String,
    pub lei_aplicacion: String,
    /// URL pública onde se consulta a resolución do contrato.
    pub enlace_resolucion: String,
    /// Resto de pares `dt/dd` non mapeados a columnas tipadas.
    pub extra: Vec<(String, String)>,
}

/// Unha liña da táboa "Datos da resolución do procedemento" (unha por lote).
/// O importe numérico derívase de `importe_txt` (ver [`normalize_importe`]).
#[derive(Debug, Clone, Default)]
pub struct Resolucion {
    pub lote: String,
    pub participacion: String,
    pub estado_resolucion: String,
    pub adxudicatario: String,
    /// NIF/CIF do adxudicatario (extraído das táboas ocultas de licitadores/
    /// formalización). Baleiro se non se atopou.
    pub nif: String,
    pub importe_txt: String,
    pub data_difusion: String,
    pub prazo_execucion: String,
    pub recurso: String,
}

/// Opcións do despregable de órgano de contratación extraídas de `portada.jsp`.
#[derive(Debug, Clone, Default)]
pub struct FilterOptions {
    pub organos: Vec<(String, String)>,
}

/// Fila combinada para a táboa de resultados locais.
#[derive(Debug, Clone, Default)]
pub struct LocalRow {
    pub id: String,
    pub tipo: TipoContrato,
    pub referencia: String,
    pub asunto: String,
    pub importe_txt: String,
    pub estado: String,
    pub publicacion: String,
    pub organismo: String,
    pub adxudicatario: String,
    /// NIF/CIF do adxudicatario.
    pub nif: String,
    /// Duración do contrato menor (baleiro nas licitacións).
    pub duracion: String,
    pub importe_resolucion_txt: String,
    pub enlace_resolucion: String,
    /// `true` se en TODOS os lotes da resolución consta un único participante.
    pub participante_unico: bool,
}

/// Unha empresa membro dunha UTE, tal como vén no popup de licitadores
/// (`CIF - NOME`).
#[derive(Debug, Clone, Default, PartialEq, Eq)]
pub struct UteMembro {
    pub cif: String,
    pub nome: String,
}

/// Unha Unión Temporal de Empresas (UTE) presentada nun contrato.
#[derive(Debug, Clone, Default, PartialEq, Eq)]
pub struct Ute {
    pub nome: String,
    pub nif: String,
    pub membros: Vec<UteMembro>,
}

/// Unha razón social que forma parte dun grupo por compartir UTE con outras.
#[derive(Debug, Clone)]
pub struct EmpresaNodo {
    /// CIF da empresa (ou, se non se coñece, a clave normalizada do nome).
    pub cif: String,
    pub empresa_nome: String,
    pub num_contratos: i64,
}

/// Unha UTE que conecta varias razóns sociais do grupo.
#[derive(Debug, Clone)]
pub struct UteRelacion {
    pub nome: String,
    /// Nomes das empresas membros da UTE.
    pub membros: Vec<String>,
}

/// Suxestión de entidade devolta pola busca de datoscif.
#[derive(Debug, Clone, Default)]
pub struct Suggestion {
    pub url: String,
    pub nombre: String,
    pub tipo_entidad: i64,
    pub uri: String,
}

/// Datos da ficha dunha empresa en datoscif (microdata schema.org).
#[derive(Debug, Clone, Default)]
pub struct EmpresaInfo {
    pub cif: String,
    pub domicilio: String,
    pub cod_postal: String,
    pub municipio: String,
    pub provincia: String,
}

/// Un cargo (administrador, apoderado…) dunha empresa en datoscif.
#[derive(Debug, Clone, Default)]
pub struct CargoRow {
    pub persona_url: String,
    pub persona_nome: String,
    pub cargo: String,
    pub desde: String,
    pub hasta: String,
    pub activo: bool,
}

// ───────────────────────── Ordenación do listado ─────────────────────────

/// Columna pola que se ordena o listado de contratos (clic na cabeceira).
#[derive(Debug, Clone, Copy, PartialEq, Eq, Structural, Default)]
pub enum SortColumn {
    Id,
    #[default]
    Data,
    Obxecto,
    Importe,
    Estado,
    Organismo,
    Adxudicatario,
    ImporteResolucion,
}

impl SortColumn {
    /// Expresión SQL fixa pola que ordenar cada columna.
    pub open spec fn sql(self) -> Seq<char> {
        match self {
            SortColumn::Id => "CAST(c.id AS INTEGER)"@,
            SortColumn::Data => "c.data_publicacion"@,
            SortColumn::Obxecto => "c.asunto COLLATE NOCASE"@,
            SortColumn::Importe => "c.importe_num"@,
            SortColumn::Estado => "e.nome COLLATE NOCASE"@,
            SortColumn::Organismo => "o.nome COLLATE NOCASE"@,
            SortColumn::Adxudicatario => "r.adxudicatarios COLLATE NOCASE"@,
            SortColumn::ImporteResolucion => "r.importe_total"@,
        }
    }

    /// Columnas numéricas ou de data (as demais son de texto).
    pub open spec fn is_numeric(self) -> bool {
        self == SortColumn::Id || self == SortColumn::Data || self == SortColumn::Importe || self
            == SortColumn::ImporteResolucion
    }

    /// Expresión SQL pola que ordenar. Son fragmentos fixos (sen entrada do
    /// usuario): non hai risco de inxección.
    pub fn order_sql(self) -> (r: &'static str)
        ensures
            r@ == self.sql(),
    {
        match self {
            SortColumn::Id => "CAST(c.id AS INTEGER)",
            SortColumn::Data => "c.data_publicacion",
            SortColumn::Obxecto => "c.asunto COLLATE NOCASE",
            SortColumn::Importe => "c.importe_num",
            SortColumn::Estado => "e.nome COLLATE NOCASE",
            SortColumn::Organismo => "o.nome COLLATE NOCASE",
            SortColumn::Adxudicatario => "r.adxudicatarios COLLATE NOCASE",
            SortColumn::ImporteResolucion => "r.importe_total",
        }
    }

    /// Sentido por defecto ao premer por primeira vez nunha columna: as numéricas e
    /// de data ordénanse descendente; as de texto, ascendente.
    pub fn default_asc(self) -> (r: bool)
        ensures
            r == !self.is_numeric(),
    {
        match self {
            SortColumn::Id | SortColumn::Data | SortColumn::Importe
            | SortColumn::ImporteResolucion => false,
            SortColumn::Obxecto | SortColumn::Estado | SortColumn::Organismo
            | SortColumn::Adxudicatario => true,
        }
    }
}

/// Filtros aplicados localmente sobre a base de datos (sen rede).
#[derive(Debug, Clone, Default)]
pub struct LocalFilters {
    /// Sobre asunto/referencia.
    pub texto: String,
    /// Subcadea sobre o nome do organismo.
    pub organismo: String,
    /// Ano de publicación.
    pub year: String,
    /// Subcadea sobre o adxudicatario.
    pub adxudicatario: String,
    /// Tipo de contrato amosado (sub-pestana activa).
    pub tipo: TipoContrato,
    /// Orde do listado (columna + ascendente). Por defecto: data descendente.
    pub sort_col: SortColumn,
    pub sort_asc: bool,
}


// ───────────────────────── Normalizacións de texto ─────────────────────────

/// Letra sen diacrítico (acentos, til do ñ, diérese, cedilla) das minúsculas
/// acentuadas; os demais caracteres quedan igual.
pub open spec fn fold_diacritic(c: char) -> char {
    if c == 'á' || c == 'à' || c == 'ä' || c == 'â' || c == 'ã' {
        'a'
    } else if c == 'é' || c == 'è' || c == 'ë' || c == 'ê' {
        'e'
    } else if c == 'í' || c == 'ì' || c == 'ï' || c == 'î' {
        'i'
    } else if c == 'ó' || c == 'ò' || c == 'ö' || c == 'ô' || c == 'õ' {
        'o'
    } else if c == 'ú' || c == 'ù' || c == 'ü' || c == 'û' {
        'u'
    } else if c == 'ñ' {
        'n'
    } else if c == 'ç' {
        'c'
    } else {
        c
    }
}

/// Texto normalizado para buscas: cada carácter en minúscula Unicode e sen diacríticos.
pub open spec fn normalize_seq(s: Seq<char>) -> Seq<char>
    decreases s.len(),
{
    if s.len() == 0 {
        Seq::<char>::empty()
    } else {
        normalize_seq(s.drop_last()) + minuscula(s.last()).map_values(
            |c: char| fold_diacritic(c),
        )
    }
}

fn fold_diacritic_exec(c: char) -> (r: char)
    ensures
        r == fold_diacritic(c),
{
    match c {
        'á' | 'à' | 'ä' | 'â' | 'ã' => 'a',
        'é' | 'è' | 'ë' | 'ê' => 'e',
        'í' | 'ì' | 'ï' | 'î' => 'i',
        'ó' | 'ò' | 'ö' | 'ô' | 'õ' => 'o',
        'ú' | 'ù' | 'ü' | 'û' => 'u',
        'ñ' => 'n',
        'ç' => 'c',
        other => other,
    }
}

/// Normaliza os caracteres dados: minúsculas e sen diacríticos.
pub fn normalize_chars(s: &Vec<char>) -> (r: Vec<char>)
    ensures
        r@ == normalize_seq(s@),
{
    let mut out: Vec<char> = Vec::new();
    let mut i: usize = 0;
    while i < s.len()
        invariant
            i <= s@.len(),
            out@ == normalize_seq(s@.take(i as int)),
        decreases s.len() - i,
    {
        let low = lowercase_of(s[i]);
        let ghost before = out@;
        let mut k: usize = 0;
        while k < low.len()
            invariant
                k <= low@.len(),
                out@ == before + low@.take(k as int).map_values(|c: char| fold_diacritic(c)),
            decreases low.len() - k,
        {
            out.push(fold_diacritic_exec(low[k]));
            assert(low@.take(k + 1).map_values(|c: char| fold_diacritic(c)) =~= low@.take(
                k as int,
            ).map_values(|c: char| fold_diacritic(c)).push(fold_diacritic(low@[k as int])));
            k = k + 1;
        }
        assert(low@.take(low@.len() as int) == low@);
        assert(s@.take(i + 1).drop_last() == s@.take(i as int));
        i = i + 1;
    }
    assert(s@.take(s@.len() as int) == s@);
    out
}

/// Normaliza texto para buscas: minúsculas e sen diacríticos (acentos, til do
/// ñ, diérese…), de xeito que a busca sexa insensible a maiúsculas e acentos.
pub fn normalize_search(s: &str) -> (r: String)
    ensures
        r@ == normalize_seq(s@),
{
    let v = chars_of(s);
    let n = normalize_chars(&v);
    string_of(n.as_slice())
}

/// Estados terminais (resoltos): o estado en minúsculas contén algunha destas raíces.
pub open spec fn is_terminal_seq(estado: Seq<char>) -> bool {
    let e = str_lowercase(estado);
    is_infix(e, "formaliz"@) || is_infix(e, "deserto"@) || is_infix(e, "anulado"@) || is_infix(
        e,
        "desestim"@,
    ) || is_infix(e, "resolto"@)
}

/// Indica se un estado é terminal (resolto) e, polo tanto, non hai que
/// volver descargar o seu detalle nunha sincronización incremental.
pub fn is_estado_terminal(estado: &str) -> (r: bool)
    ensures
        r == is_terminal_seq(estado@),
{
    let e = lowercase_str(estado);
    let ev = chars_of(e.as_str());
    let t0 = chars_of("formaliz");
    let t1 = chars_of("deserto");
    let t2 = chars_of("anulado");
    let t3 = chars_of("desestim");
    let t4 = chars_of("resolto");
    contains_chars(&ev, &t0) || contains_chars(&ev, &t1) || contains_chars(&ev, &t2)
        || contains_chars(&ev, &t3) || contains_chars(&ev, &t4)
}

/// Signos que se eliminan sen deixar oco na clave de empresa (S.L. → sl).
pub open spec fn is_key_dropped(c: char) -> bool {
    c == '.' || c == ',' || c == '\'' || c == '"' || c == '`' || c == '·'
}

/// Contribución dun carácter (xa normalizado) á clave de empresa.
pub open spec fn key_char(c: char) -> Seq<char> {
    if is_key_dropped(c) {
        Seq::<char>::empty()
    } else if alfanumerico(c) || c == ' ' {
        seq![c]
    } else {
        seq![' ']
    }
}

/// Texto normalizado con cada carácter substituído pola súa contribución á clave.
pub open spec fn key_chars(s: Seq<char>) -> Seq<char>
    decreases s.len(),
{
    if s.len() == 0 {
        Seq::<char>::empty()
    } else {
        key_chars(s.drop_last()) + key_char(s.last())
    }
}

/// Clave de comparación dun nome de empresa.
pub open spec fn company_key_seq(s: Seq<char>) -> Seq<char> {
    collapse_ws(key_chars(normalize_seq(s)))
}

/// Clave de comparación (sobre caracteres).
pub fn company_key_chars(s: &Vec<char>) -> (r: Vec<char>)
    ensures
        r@ == company_key_seq(s@),
{
    let lowered = normalize_chars(s);
    let mut buf: Vec<char> = Vec::new();
    let mut i: usize = 0;
    while i < lowered.len()
        invariant
            i <= lowered@.len(),
            buf@ == key_chars(lowered@.take(i as int)),
        decreases lowered.len() - i,
    {
        let c = lowered[i];
        if c == '.' || c == ',' || c == '\'' || c == '"' || c == '`' || c == '·' {
        } else if is_alphanumeric(c) || c == ' ' {
            buf.push(c);
        } else {
            buf.push(' ');
        }
        assert(lowered@.take(i + 1).drop_last() == lowered@.take(i as int));
        i = i + 1;
    }
    assert(lowered@.take(lowered@.len() as int) == lowered@);
    collapse_whitespace(&buf)
}

/// Clave de comparación dun nome: minúsculas, sen acentos, **sen puntos/comas**
/// (S.L. → sl) e co resto de signos convertidos en espazo. Base do fuzzy match.
pub fn company_key(s: &str) -> (r: String)
    ensures
        r@ == company_key_seq(s@),
{
    let v = chars_of(s);
    let k = company_key_chars(&v);
    string_of(k.as_slice())
}

/// NIF normalizado: só os caracteres alfanuméricos, en maiúsculas Unicode.
pub open spec fn nif_seq(s: Seq<char>) -> Seq<char>
    decreases s.len(),
{
    if s.len() == 0 {
        Seq::<char>::empty()
    } else if alfanumerico(s.last()) {
        nif_seq(s.drop_last()) + maiuscula(s.last())
    } else {
        nif_seq(s.drop_last())
    }
}

/// NIF normalizado (sobre caracteres).
pub fn normalize_nif_chars(s: &Vec<char>) -> (r: Vec<char>)
    ensures
        r@ == nif_seq(s@),
{
    let mut out: Vec<char> = Vec::new();
    let mut i: usize = 0;
    while i < s.len()
        invariant
            i <= s@.len(),
            out@ == nif_seq(s@.take(i as int)),
        decreases s.len() - i,
    {
        let c = s[i];
        assert(s@.take(i + 1).drop_last() == s@.take(i as int));
        if is_alphanumeric(c) {
            let up = uppercase_of(c);
            let ghost before = out@;
            let mut k: usize = 0;
            while k < up.len()
                invariant
                    k <= up@.len(),
                    out@ == before + up@.take(k as int),
                decreases up.len() - k,
            {
                out.push(up[k]);
                assert(up@.take(k + 1) == up@.take(k as int).push(up@[k as int]));
                k = k + 1;
            }
            assert(up@.take(up@.len() as int) == up@);
        }
        i = i + 1;
    }
    assert(s@.take(s@.len() as int) == s@);
    out
}

/// Normaliza un NIF/CIF para comparar: en maiúsculas e só alfanuméricos
/// (elimina puntos, guións e espazos). «b-36.881.415» → «B36881415».
pub fn normalize_nif(s: &str) -> (r: String)
    ensures
        r@ == nif_seq(s@),
{
    let v = chars_of(s);
    let n = normalize_nif_chars(&v);
    string_of(n.as_slice())
}

// ───────────────────────── Leis das normalizacións ─────────────────────────

/// Todos os caracteres son ASCII.
pub open spec fn ascii_seq(s: Seq<char>) -> bool {
    forall|i: int| 0 <= i < s.len() ==> is_ascii_char(#[trigger] s[i])
}

proof fn lemma_ascii_lower_char(c: char)
    requires
        is_ascii_char(c),
    ensures
        is_ascii_char(ascii_lower(c)),
        !is_ascii_upper(ascii_lower(c)),
        ascii_lower(ascii_lower(c)) == ascii_lower(c),
        fold_diacritic(ascii_lower(c)) == ascii_lower(c),
        minuscula(c) == seq![ascii_lower(c)],
        is_ascii_lower(c) || is_ascii_digit(c) || c == ' ' ==> ascii_lower(c) == c,
        is_ascii_upper(c) ==> is_ascii_lower(ascii_lower(c)),
{
}

proof fn lemma_normalize_ascii_map(s: Seq<char>)
    requires
        ascii_seq(s),
    ensures
        normalize_seq(s) == s.map_values(|c: char| ascii_lower(c)),
    decreases s.len(),
{
    if s.len() > 0 {
        let sd = s.drop_last();
        assert(ascii_seq(sd)) by {
            assert forall|i: int| 0 <= i < sd.len() implies is_ascii_char(#[trigger] sd[i]) by {
                assert(sd[i] == s[i]);
            }
        }
        lemma_normalize_ascii_map(sd);
        assert(is_ascii_char(s[s.len() - 1]));
        lemma_ascii_lower_char(s.last());
        assert(seq![ascii_lower(s.last())].map_values(|c: char| fold_diacritic(c)) =~= seq![ascii_lower(s.last())]);
        assert(s.map_values(|c: char| ascii_lower(c)) =~= sd.map_values(|c: char| ascii_lower(c)).push(ascii_lower(s.last())));
    }
}

/// Nun texto ASCII, a normalización de buscas é a minúscula ASCII carácter a
/// carácter: non deixa ningunha maiúscula, e normalizar outra vez non cambia nada.
pub proof fn lemma_normalize_search_ascii(s: Seq<char>)
    requires
        ascii_seq(s),
    ensures
        normalize_seq(s) == s.map_values(|c: char| ascii_lower(c)),
        ascii_seq(normalize_seq(s)),
        forall|i: int| 0 <= i < normalize_seq(s).len() ==> !is_ascii_upper(#[trigger] normalize_seq(s)[i]),
        normalize_seq(normalize_seq(s)) == normalize_seq(s),
{
    lemma_normalize_ascii_map(s);
    let r = normalize_seq(s);
    assert forall|i: int| 0 <= i < r.len() implies is_ascii_char(#[trigger] r[i]) && !is_ascii_upper(r[i]) by {
        assert(is_ascii_char(s[i]));
        lemma_ascii_lower_char(s[i]);
    }
    lemma_normalize_ascii_map(r);
    let m = r.map_values(|c: char| ascii_lower(c));
    assert forall|i: int| 0 <= i < r.len() implies #[trigger] m[i] == r[i] by {
        assert(is_ascii_char(s[i]));
        lemma_ascii_lower_char(s[i]);
    }
    assert(m =~= r);
}

/// Caracteres dun NIF normalizado ASCII: letras maiúsculas e díxitos.
pub open spec fn nif_chars(s: Seq<char>) -> bool {
    forall|i: int| 0 <= i < s.len() ==> is_ascii_upper(#[trigger] s[i]) || is_ascii_digit(s[i])
}

proof fn lemma_nif_ascii_forma(s: Seq<char>)
    requires
        ascii_seq(s),
    ensures
        nif_chars(nif_seq(s)),
    decreases s.len(),
{
    if s.len() > 0 {
        let sd = s.drop_last();
        assert forall|i: int| 0 <= i < sd.len() implies is_ascii_char(#[trigger] sd[i]) by {
            assert(sd[i] == s[i]);
        }
        lemma_nif_ascii_forma(sd);
        assert(is_ascii_char(s[s.len() - 1]));
        let a = nif_seq(sd);
        if alfanumerico(s.last()) {
            let r = nif_seq(s);
            assert forall|i: int| 0 <= i < r.len() implies is_ascii_upper(#[trigger] r[i]) || is_ascii_digit(r[i]) by {
                if i < a.len() {
                    assert(r[i] == a[i]);
                }
            }
        }
    }
}

proof fn lemma_nif_fixo(x: Seq<char>)
    requires
        nif_chars(x),
    ensures
        nif_seq(x) == x,
    decreases x.len(),
{
    if x.len() > 0 {
        let xd = x.drop_last();
        assert forall|i: int| 0 <= i < xd.len() implies is_ascii_upper(#[trigger] xd[i]) || is_ascii_digit(xd[i]) by {
            assert(xd[i] == x[i]);
        }
        lemma_nif_fixo(xd);
        assert(is_ascii_upper(x[x.len() - 1]) || is_ascii_digit(x[x.len() - 1]));
        assert(xd.push(x.last()) =~= x);
    }
}

/// Nun texto ASCII, o NIF normalizado só ten letras maiúsculas e díxitos, e
/// normalizalo outra vez non cambia nada.
pub proof fn lemma_normalize_nif_ascii(s: Seq<char>)
    requires
        ascii_seq(s),
    ensures
        nif_chars(nif_seq(s)),
        nif_seq(nif_seq(s)) == nif_seq(s),
{
    lemma_nif_ascii_forma(s);
    lemma_nif_fixo(nif_seq(s));
}

proof fn lemma_key_chars_forma(s: Seq<char>)
    ensures
        forall|k: int|
            0 <= k < key_chars(s).len() ==> #[trigger] key_chars(s)[k] == ' ' || (alfanumerico(key_chars(s)[k])
                && !is_key_dropped(key_chars(s)[k]) && s.contains(key_chars(s)[k])),
    decreases s.len(),
{
    if s.len() > 0 {
        let sd = s.drop_last();
        lemma_key_chars_forma(sd);
        let a = key_chars(sd);
        let r = key_chars(s);
        assert(s[s.len() - 1] == s.last());
        assert forall|k: int| 0 <= k < r.len() implies #[trigger] r[k] == ' ' || (alfanumerico(r[k]) && !is_key_dropped(r[k])
            && s.contains(r[k])) by {
            if k < a.len() {
                assert(r[k] == a[k]);
                if a[k] != ' ' {
                    let j = choose|j: int| 0 <= j < sd.len() && sd[j] == a[k];
                    assert(s[j] == a[k]);
                }
            }
        }
    }
}

proof fn lemma_key_chars_fixo(x: Seq<char>)
    requires
        forall|i: int| 0 <= i < x.len() ==> #[trigger] x[i] == ' ' || (alfanumerico(x[i]) && !is_key_dropped(x[i])),
    ensures
        key_chars(x) == x,
    decreases x.len(),
{
    if x.len() > 0 {
        let xd = x.drop_last();
        assert forall|i: int| 0 <= i < xd.len() implies #[trigger] xd[i] == ' ' || (alfanumerico(xd[i]) && !is_key_dropped(xd[i])) by {
            assert(xd[i] == x[i]);
        }
        lemma_key_chars_fixo(xd);
        assert(x[x.len() - 1] == x.last());
        assert(xd.push(x.last()) =~= x);
    }
}

/// A clave de empresa está colapsada (sen espazos nos extremos nin dobres) e
/// cada carácter é `' '` ou un alfanumérico que non é espazo nin signo eliminado.
pub proof fn lemma_company_key_forma(s: Seq<char>)
    ensures
        colapsado(company_key_seq(s)),
        forall|k: int|
            0 <= k < company_key_seq(s).len() ==> #[trigger] company_key_seq(s)[k] == ' ' || (alfanumerico(
                company_key_seq(s)[k],
            ) && !espazo(company_key_seq(s)[k]) && !is_key_dropped(company_key_seq(s)[k])),
{
    let y = key_chars(normalize_seq(s));
    lemma_collapse_forma(y);
    lemma_key_chars_forma(normalize_seq(s));
    let r = company_key_seq(s);
    assert forall|k: int| 0 <= k < r.len() implies #[trigger] r[k] == ' ' || (alfanumerico(r[k]) && !espazo(r[k])
        && !is_key_dropped(r[k])) by {
        if r[k] != ' ' {
            let j = choose|j: int| 0 <= j < y.len() && y[j] == r[k];
            assert(y[j] == ' ' || (alfanumerico(y[j]) && !is_key_dropped(y[j])));
        }
    }
}

/// Nun texto ASCII, a clave de empresa só ten minúsculas, díxitos e espazos
/// simples; calculala outra vez non cambia nada, e dá o mesmo sobre o texto
/// xa normalizado para buscas.
pub proof fn lemma_company_key_ascii(s: Seq<char>)
    requires
        ascii_seq(s),
    ensures
        forall|k: int|
            0 <= k < company_key_seq(s).len() ==> #[trigger] company_key_seq(s)[k] == ' ' || is_ascii_lower(
                company_key_seq(s)[k],
            ) || is_ascii_digit(company_key_seq(s)[k]),
        company_key_seq(company_key_seq(s)) == company_key_seq(s),
        company_key_seq(normalize_seq(s)) == company_key_seq(s),
{
    lemma_normalize_search_ascii(s);
    let n = normalize_seq(s);
    let y = key_chars(n);
    lemma_key_chars_forma(n);
    lemma_collapse_forma(y);
    lemma_company_key_forma(s);
    let r = company_key_seq(s);
    assert forall|k: int| 0 <= k < r.len() implies #[trigger] r[k] == ' ' || is_ascii_lower(r[k]) || is_ascii_digit(r[k]) by {
        if r[k] != ' ' {
            let j = choose|j: int| 0 <= j < y.len() && y[j] == r[k];
            let i = choose|i: int| 0 <= i < n.len() && n[i] == y[j];
            assert(is_ascii_char(n[i]) && !is_ascii_upper(n[i]));
        }
    }
    assert(ascii_seq(r));
    lemma_normalize_search_ascii(r);
    let m = r.map_values(|c: char| ascii_lower(c));
    assert forall|i: int| 0 <= i < r.len() implies #[trigger] m[i] == r[i] by {
        lemma_ascii_lower_char(r[i]);
    }
    assert(m =~= r);
    lemma_key_chars_fixo(r);
    lemma_collapse_fixo(r);
}

/// Todos os caracteres son Latin-1 (ata U+00FF).
pub open spec fn latin1_seq(s: Seq<char>) -> bool {
    forall|i: int| 0 <= i < s.len() ==> is_latin1_char(#[trigger] s[i])
}

/// Carácter xa normalizado: Latin-1, sen maiúscula e sen diacrítico que quitar.
pub open spec fn normal_char(c: char) -> bool {
    is_latin1_char(c) && !latin1_upper(c) && latin1_lower(c) == c && fold_diacritic(c) == c
}

proof fn lemma_latin1_char(c: char)
    requires
        is_latin1_char(c),
    ensures
        minuscula(c) == seq![latin1_lower(c)],
        normal_char(fold_diacritic(latin1_lower(c))),
        normal_char(c) ==> fold_diacritic(latin1_lower(c)) == c,
        is_ascii_char(c) ==> fold_diacritic(latin1_lower(c)) == ascii_lower(c),
{
}

proof fn lemma_normalize_latin1_map(s: Seq<char>)
    requires
        latin1_seq(s),
    ensures
        normalize_seq(s) == s.map_values(|c: char| fold_diacritic(latin1_lower(c))),
    decreases s.len(),
{
    if s.len() > 0 {
        let sd = s.drop_last();
        assert forall|i: int| 0 <= i < sd.len() implies is_latin1_char(#[trigger] sd[i]) by {
            assert(sd[i] == s[i]);
        }
        lemma_normalize_latin1_map(sd);
        assert(is_latin1_char(s[s.len() - 1]));
        lemma_latin1_char(s.last());
        let l = latin1_lower(s.last());
        assert(seq![l].map_values(|c: char| fold_diacritic(c)) =~= seq![fold_diacritic(l)]);
        assert(s.map_values(|c: char| fold_diacritic(latin1_lower(c))) =~= sd.map_values(
            |c: char| fold_diacritic(latin1_lower(c)),
        ).push(fold_diacritic(l)));
    }
}

/// Nun texto Latin-1, a normalización de buscas pasa cada carácter á súa
/// minúscula sen diacrítico: o resultado non ten maiúsculas (nin ASCII nin
/// acentuadas) nin ningunha das vogais acentuadas, `ñ` ou `ç`, e normalizar
/// outra vez non cambia nada.
pub proof fn lemma_normalize_search_latin1(s: Seq<char>)
    requires
        latin1_seq(s),
    ensures
        normalize_seq(s) == s.map_values(|c: char| fold_diacritic(latin1_lower(c))),
        forall|i: int| 0 <= i < normalize_seq(s).len() ==> normal_char(#[trigger] normalize_seq(s)[i]),
        normalize_seq(normalize_seq(s)) == normalize_seq(s),
{
    lemma_normalize_latin1_map(s);
    let r = normalize_seq(s);
    assert forall|i: int| 0 <= i < r.len() implies normal_char(#[trigger] r[i]) by {
        assert(is_latin1_char(s[i]));
        lemma_latin1_char(s[i]);
    }
    lemma_normalize_fixo(r);
}

proof fn lemma_normalize_fixo(x: Seq<char>)
    requires
        forall|i: int| 0 <= i < x.len() ==> normal_char(#[trigger] x[i]),
    ensures
        normalize_seq(x) == x,
{
    assert forall|i: int| 0 <= i < x.len() implies is_latin1_char(#[trigger] x[i]) by {
        assert(normal_char(x[i]));
    }
    lemma_normalize_latin1_map(x);
    let m = x.map_values(|c: char| fold_diacritic(latin1_lower(c)));
    assert forall|i: int| 0 <= i < x.len() implies #[trigger] m[i] == x[i] by {
        assert(normal_char(x[i]));
    }
    assert(m =~= x);
}

/// Nun texto Latin-1, calcular a clave de empresa outra vez non cambia nada, e
/// dá o mesmo sobre o texto xa normalizado para buscas.
pub proof fn lemma_company_key_latin1(s: Seq<char>)
    requires
        latin1_seq(s),
    ensures
        company_key_seq(company_key_seq(s)) == company_key_seq(s),
        company_key_seq(normalize_seq(s)) == company_key_seq(s),
{
    lemma_normalize_search_latin1(s);
    let n = normalize_seq(s);
    let y = key_chars(n);
    lemma_key_chars_forma(n);
    lemma_collapse_forma(y);
    lemma_company_key_forma(s);
    let r = company_key_seq(s);
    assert forall|k: int| 0 <= k < r.len() implies normal_char(#[trigger] r[k]) by {
        if r[k] != ' ' {
            let j = choose|j: int| 0 <= j < y.len() && y[j] == r[k];
            let i = choose|i: int| 0 <= i < n.len() && n[i] == y[j];
            assert(normal_char(n[i]));
        }
    }
    lemma_normalize_fixo(r);
    lemma_key_chars_fixo(r);
    lemma_collapse_fixo(r);
}

/// Lei: un estado é terminal exactamente cando o seu texto en minúsculas contén
/// algunha das raíces «formaliz», «deserto», «anulado», «desestim» ou «resolto»
/// (formalizado, deserto, anulado, desestimado, resolto).
pub proof fn lemma_estados_terminais(estado: Seq<char>)
    ensures
        is_terminal_seq(estado) <==> (is_infix(str_lowercase(estado), "formaliz"@) || is_infix(
            str_lowercase(estado),
            "deserto"@,
        ) || is_infix(str_lowercase(estado), "anulado"@) || is_infix(str_lowercase(estado), "desestim"@)
            || is_infix(str_lowercase(estado), "resolto"@)),
        is_infix(str_lowercase(estado), "anulado"@) ==> is_terminal_seq(estado),
        is_infix(str_lowercase(estado), "formaliz"@) ==> is_terminal_seq(estado),
        is_infix(str_lowercase(estado), "deserto"@) ==> is_terminal_seq(estado),
        is_infix(str_lowercase(estado), "desestim"@) ==> is_terminal_seq(estado),
        is_infix(str_lowercase(estado), "resolto"@) ==> is_terminal_seq(estado),
{
}

/// Lei: cada columna ordena por unha expresión propia (dúas columnas distintas
/// nunca ordenan pola mesma expresión), e só as columnas que amosan datos da
/// resolución (adxudicatario e importe de resolución) ordenan polo agregado das
/// resolucións `r.`; as demais, polos datos do propio contrato, do estado ou do
/// organismo.
pub proof fn lemma_orde_columnas(a: SortColumn, b: SortColumn)
    ensures
        a.sql() == b.sql() ==> a == b,
        a.sql().take(2) == "r."@ <==> (a == SortColumn::Adxudicatario || a == SortColumn::ImporteResolucion),
        a.sql().take(2) == "c."@ <==> (a == SortColumn::Data || a == SortColumn::Obxecto || a == SortColumn::Importe),
{
    reveal_strlit("CAST(c.id AS INTEGER)");
    reveal_strlit("c.data_publicacion");
    reveal_strlit("c.asunto COLLATE NOCASE");
    reveal_strlit("c.importe_num");
    reveal_strlit("e.nome COLLATE NOCASE");
    reveal_strlit("o.nome COLLATE NOCASE");
    reveal_strlit("r.adxudicatarios COLLATE NOCASE");
    reveal_strlit("r.importe_total");
    reveal_strlit("r.");
    reveal_strlit("c.");
    if a != b {
        assert(a.sql().len() != b.sql().len() || a.sql()[0] != b.sql()[0]);
    }
    assert(a.sql().take(2) =~= seq![a.sql()[0], a.sql()[1]]);
    assert("r."@ =~= seq!['r', '.']);
    assert("c."@ =~= seq!['c', '.']);
}

} // verus!
