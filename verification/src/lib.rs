//! Core of a code-evaluation broker: a catalogue of language backends built
//! from a text configuration, and the pure decision logic of dispatching a
//! snippet to a backend — code wrapping, timeout resolution, argument
//! substitution, the framed wire protocol of persistent sandbox daemons, and
//! the classification of process exits.
//!
//! All I/O (spawning children, sockets, timers) is left to the embedding
//! program, which executes the [`Eval`] plans this library produces and
//! feeds the outcomes back through the `session` and `exec` modules.

use vstd::prelude::*;
use vstd::string::{StrSliceExecFns, StringExecFns, StringSliceAdditionalSpecFns};
use vstd::utf8::encode_utf8;

pub mod exec;
pub mod session;
pub mod text;
pub mod textcfg;
pub mod util;
pub mod wire;

verus! {

/// An exec backend: a fresh child process per evaluation. `cmdline[0]` is
/// the program; arguments equal to `{TIMEOUT}` are substituted at dispatch.
#[derive(Debug, Clone, PartialEq)]
pub struct ExecBackend {
    pub cmdline: Vec<String>,
    pub timeout_prefix: Option<String>,
}

/// A persistent daemon reached over TCP.
#[derive(Debug, Clone, PartialEq)]
pub struct NetworkBackend {
    pub network_addr: String,
    pub timeout_cmdline: Option<Vec<String>>,
}

/// A persistent daemon reached over a filesystem socket.
#[derive(Debug, Clone, PartialEq)]
pub struct UnixSocketBackend {
    pub socket_addr: String,
    pub timeout_cmdline: Option<Vec<String>>,
}

/// The three backend shapes, fixed at construction.
#[derive(Debug, Clone, PartialEq)]
pub enum Backend {
    Exec(ExecBackend),
    Network(NetworkBackend),
    UnixSocket(UnixSocketBackend),
}

/// Per-language configuration record, before the service-wide timeout is
/// filled in.
#[derive(Debug, Clone, PartialEq)]
pub struct LangCfg {
    pub code_before: Option<String>,
    pub code_after: Option<String>,
    pub timeout: Option<u32>,
    pub backend: Backend,
}

/// The whole configuration: the default timeout in seconds and the
/// per-language records, keyed by name.
#[derive(Debug, Clone, PartialEq)]
pub struct EvalServiceCfg {
    pub timeout: u32,
    pub languages: Vec<(String, LangCfg)>,
}

/// One configured language, immutable after load.
#[derive(Debug, Clone, PartialEq)]
pub struct Language {
    pub name: String,
    pub code_before: Option<String>,
    pub code_after: Option<String>,
    /// Per-language timeout; after construction this is always `Some`,
    /// back-filled from the service default where the record had none.
    pub timeout: Option<u32>,
    pub backend: Backend,
}

/// The registry: languages by name, plus the service-wide default timeout.
#[derive(Debug, Clone, PartialEq)]
pub struct EvalService {
    pub timeout: u32,
    pub languages: Vec<(String, Language)>,
}

/// Mathematical mirror of `ExecBackend`: every string as its characters.
pub struct ExecBackendV {
    pub cmdline: Seq<Seq<char>>,
    pub timeout_prefix: Option<Seq<char>>,
}

/// Mathematical mirror of `NetworkBackend`.
pub struct NetworkBackendV {
    pub network_addr: Seq<char>,
    pub timeout_cmdline: Option<Seq<Seq<char>>>,
}

/// Mathematical mirror of `UnixSocketBackend`.
pub struct UnixSocketBackendV {
    pub socket_addr: Seq<char>,
    pub timeout_cmdline: Option<Seq<Seq<char>>>,
}

/// Mathematical mirror of `Backend`.
pub enum BackendV {
    Exec(ExecBackendV),
    Network(NetworkBackendV),
    UnixSocket(UnixSocketBackendV),
}

/// Mathematical mirror of `LangCfg`.
pub struct LangCfgV {
    pub code_before: Option<Seq<char>>,
    pub code_after: Option<Seq<char>>,
    pub timeout: Option<u32>,
    pub backend: BackendV,
}

/// Mathematical mirror of `EvalServiceCfg`.
pub struct CfgV {
    pub timeout: u32,
    pub languages: Seq<(Seq<char>, LangCfgV)>,
}

/// Mathematical mirror of `Language`.
pub struct LanguageV {
    pub name: Seq<char>,
    pub code_before: Option<Seq<char>>,
    pub code_after: Option<Seq<char>>,
    pub timeout: Option<u32>,
    pub backend: BackendV,
}

/// Mathematical mirror of `EvalService`.
pub struct EvalServiceV {
    pub timeout: u32,
    pub languages: Seq<(Seq<char>, LanguageV)>,
}

/// The characters of an optional string, kept optional.
pub open spec fn spec_opt_view(o: Option<String>) -> Option<Seq<char>> {
    match o {
        Some(s) => Some(s@),
        None => None,
    }
}

/// The characters of each string in an optional list, kept optional.
pub open spec fn spec_opt_views(o: Option<Vec<String>>) -> Option<Seq<Seq<char>>> {
    match o {
        Some(v) => Some(spec_views(v@)),
        None => None,
    }
}

impl View for ExecBackend {
    type V = ExecBackendV;

    open spec fn view(&self) -> ExecBackendV {
        ExecBackendV {
            cmdline: spec_views(self.cmdline@),
            timeout_prefix: spec_opt_view(self.timeout_prefix),
        }
    }
}

impl View for NetworkBackend {
    type V = NetworkBackendV;

    open spec fn view(&self) -> NetworkBackendV {
        NetworkBackendV {
            network_addr: self.network_addr@,
            timeout_cmdline: spec_opt_views(self.timeout_cmdline),
        }
    }
}

impl View for UnixSocketBackend {
    type V = UnixSocketBackendV;

    open spec fn view(&self) -> UnixSocketBackendV {
        UnixSocketBackendV {
            socket_addr: self.socket_addr@,
            timeout_cmdline: spec_opt_views(self.timeout_cmdline),
        }
    }
}

impl View for Backend {
    type V = BackendV;

    open spec fn view(&self) -> BackendV {
        match self {
            Backend::Exec(b) => BackendV::Exec(b@),
            Backend::Network(b) => BackendV::Network(b@),
            Backend::UnixSocket(b) => BackendV::UnixSocket(b@),
        }
    }
}

impl View for LangCfg {
    type V = LangCfgV;

    open spec fn view(&self) -> LangCfgV {
        LangCfgV {
            code_before: spec_opt_view(self.code_before),
            code_after: spec_opt_view(self.code_after),
            timeout: self.timeout,
            backend: self.backend@,
        }
    }
}

impl View for EvalServiceCfg {
    type V = CfgV;

    open spec fn view(&self) -> CfgV {
        CfgV {
            timeout: self.timeout,
            languages: Seq::new(self.languages@.len(), |i: int| (self.languages@[i].0@, self.languages@[i].1@)),
        }
    }
}

impl View for Language {
    type V = LanguageV;

    open spec fn view(&self) -> LanguageV {
        LanguageV {
            name: self.name@,
            code_before: spec_opt_view(self.code_before),
            code_after: spec_opt_view(self.code_after),
            timeout: self.timeout,
            backend: self.backend@,
        }
    }
}

impl View for EvalService {
    type V = EvalServiceV;

    open spec fn view(&self) -> EvalServiceV {
        EvalServiceV {
            timeout: self.timeout,
            languages: Seq::new(self.languages@.len(), |i: int| (self.languages@[i].0@, self.languages@[i].1@)),
        }
    }
}

/// What registry construction does, at the level of views: each record
/// becomes a language named after its key, its timeout defaulted from the
/// service-wide one when absent.
pub open spec fn spec_language_from_v(name: Seq<char>, default_timeout: u32, cfg: LangCfgV) -> LanguageV {
    LanguageV {
        name,
        code_before: cfg.code_before,
        code_after: cfg.code_after,
        timeout: match cfg.timeout {
            Some(n) => Some(n),
            None => Some(default_timeout),
        },
        backend: cfg.backend,
    }
}

/// Registry construction at the level of views.
pub open spec fn spec_fixup(c: CfgV) -> EvalServiceV {
    EvalServiceV {
        timeout: c.timeout,
        languages: Seq::new(
            c.languages.len(),
            |i: int| (c.languages[i].0, spec_language_from_v(c.languages[i].0, c.timeout, c.languages[i].1)),
        ),
    }
}

/// View of an optional string: its characters, or empty.
pub open spec fn spec_opt_str(o: Option<String>) -> Seq<char> {
    match o {
        Some(s) => s@,
        None => Seq::<char>::empty(),
    }
}

/// UTF-8 bytes of an optional string: its bytes, or empty.
pub open spec fn spec_opt_bytes(o: Option<String>) -> Seq<u8> {
    match o {
        Some(s) => encode_utf8(s@),
        None => Seq::<u8>::empty(),
    }
}

/// Bytes of the optional context key: the caller's bytes, or empty.
pub open spec fn spec_context_bytes(context: Option<&str>) -> Seq<u8> {
    match context {
        Some(c) => encode_utf8(c@),
        None => Seq::<u8>::empty(),
    }
}

/// The characters of each string in a list.
pub open spec fn spec_views(v: Seq<String>) -> Seq<Seq<char>> {
    Seq::new(v.len(), |i: int| v[i]@)
}

/// The command lines of an optional helper invocation, as sequences of
/// characters.
pub open spec fn spec_cmdline_views(o: Option<Vec<String>>) -> Option<Seq<Seq<char>>> {
    match o {
        Some(v) => Some(spec_views(v@)),
        None => None,
    }
}

/// Copies an optional helper command line, character for character.
fn clone_cmdline(o: &Option<Vec<String>>) -> (r: Option<Vec<String>>)
    ensures
        spec_cmdline_views(r) == spec_cmdline_views(*o),
{
    match o {
        None => None,
        Some(v) => {
            let mut c: Vec<String> = Vec::new();
            let mut i: usize = 0;
            while i < v.len()
                invariant
                    0 <= i <= v@.len(),
                    c@.len() == i,
                    forall|j: int| 0 <= j < i ==> (#[trigger] c@[j])@ == v@[j]@,
                decreases v@.len() - i,
            {
                c.push(v[i].as_str().to_owned());
                i += 1;
            }
            proof {
                assert(spec_views(c@) =~= spec_views(v@));
            }
            Some(c)
        },
    }
}

/// Timeout resolution at dispatch: an explicit `Some(0)` disables the
/// deadline entirely, an explicit `Some(n)` is used as given, and `None`
/// falls back to the language's own (already defaulted) timeout.
pub open spec fn spec_resolve_timeout(requested: Option<u32>, configured: Option<u32>) -> Option<
    u32,
> {
    match requested {
        Some(n) => if n == 0 {
            None
        } else {
            Some(n)
        },
        None => configured,
    }
}

/// Resolves the timeout for one evaluation; `Some(0)` from the caller
/// yields `None`, so no deadline is ever armed for it.
pub fn resolve_timeout(requested: Option<u32>, configured: Option<u32>) -> (r: Option<u32>)
    ensures
        r == spec_resolve_timeout(requested, configured),
        requested == Some(0u32) ==> r is None,
{
    match requested {
        Some(n) => if n == 0 {
            None
        } else {
            Some(n)
        },
        None => configured,
    }
}

/// Seconds-to-milliseconds conversion used on the wire: the request header
/// carries the low 32 bits of `seconds * 1000`.
pub open spec fn spec_timeout_ms(seconds: u32) -> u32 {
    (seconds * 1000) as u32
}

/// Wire header value for an optional timeout: `None` means "no timeout",
/// carried as 0.
pub fn timeout_ms(timeout: Option<u32>) -> (r: u32)
    ensures
        r == match timeout {
            Some(s) => spec_timeout_ms(s),
            None => 0u32,
        },
{
    match timeout {
        Some(s) => #[verifier::truncate] (((s as u64) * 1000) as u32),
        None => 0u32,
    }
}

impl Language {
    /// The effective program text: `code_before ++ raw ++ code_after`.
    pub open spec fn spec_wrapped(self, raw: Seq<char>) -> Seq<char> {
        spec_opt_str(self.code_before) + raw + spec_opt_str(self.code_after)
    }

    /// The effective program text as UTF-8 bytes.
    pub open spec fn spec_wrapped_bytes(self, raw: Seq<u8>) -> Seq<u8> {
        spec_opt_bytes(self.code_before) + raw + spec_opt_bytes(self.code_after)
    }

    /// Wraps the caller's snippet in the language's prefix and postfix.
    pub fn wrap_code(&self, raw: &str) -> (r: String)
        ensures
            r@ == self.spec_wrapped(raw@),
    {
        let mut r = match &self.code_before {
            Some(p) => p.as_str().to_owned(),
            None => String::new(),
        };
        r.append(raw);
        if let Some(p) = &self.code_after {
            r.append(p.as_str());
        }
        proof {
            assert(r@ =~= self.spec_wrapped(raw@));
        }
        r
    }

    /// Wraps the caller's snippet, as the bytes sent to a persistent
    /// daemon.
    pub fn wrap_code_bytes(&self, raw: &str) -> (r: Vec<u8>)
        ensures
            r@ == self.spec_wrapped_bytes(encode_utf8(raw@)),
    {
        let mut r: Vec<u8> = match &self.code_before {
            Some(p) => p.as_str().as_bytes_vec(),
            None => Vec::new(),
        };
        let mut mid = raw.as_bytes_vec();
        r.append(&mut mid);
        if let Some(p) = &self.code_after {
            let mut post = p.as_str().as_bytes_vec();
            r.append(&mut post);
        }
        proof {
            assert(r@ =~= self.spec_wrapped_bytes(encode_utf8(raw@)));
        }
        r
    }

    /// Builds a `Language` from its configuration record: the name is
    /// filled from the registry key and a missing timeout inherits the
    /// service default.
    pub fn from(name: String, default_timeout: u32, cfg: LangCfg) -> (r: Language)
        ensures
            r == spec_language_from(name, default_timeout, cfg),
    {
        Language {
            name,
            code_before: cfg.code_before,
            code_after: cfg.code_after,
            timeout: match cfg.timeout {
                Some(n) => Some(n),
                None => Some(default_timeout),
            },
            backend: cfg.backend,
        }
    }
}

/// What `Language::from` builds: every field of the record, the given
/// name, and the timeout defaulted from the service when the record has
/// none.
pub open spec fn spec_language_from(name: String, default_timeout: u32, cfg: LangCfg) -> Language {
    Language {
        name,
        code_before: cfg.code_before,
        code_after: cfg.code_after,
        timeout: match cfg.timeout {
            Some(n) => Some(n),
            None => Some(default_timeout),
        },
        backend: cfg.backend,
    }
}

/// The shape of every parse-failure message of `from_toml`: the fixed
/// prefix, a colon, and the 1-based line where parsing stopped.
pub open spec fn spec_parse_error_message(m: Seq<char>) -> bool {
    exists|n: int|
        #![auto]
        0 <= n && m == "could not parse TOML: error at line "@ + text::spec_dec(n)
}

/// Name lookup over the registry entries, first match wins.
pub open spec fn spec_get(entries: Seq<(String, Language)>, name: Seq<char>) -> Option<Language>
    decreases entries.len(),
{
    if entries.len() == 0 {
        None
    } else if entries[0].0@ == name {
        Some(entries[0].1)
    } else {
        spec_get(entries.drop_first(), name)
    }
}

impl EvalService {
    /// Builds the registry from a configuration: each record becomes a
    /// `Language` named after its key, with the service default timeout
    /// back-filled.
    pub fn new(cfg: EvalServiceCfg) -> (r: EvalService)
        ensures
            r@ == spec_fixup(cfg@),
            r.timeout == cfg.timeout,
            r.languages@.len() == cfg.languages@.len(),
            forall|i: int|
                0 <= i < r.languages@.len() ==> {
                    &&& (#[trigger] r.languages@[i]).0@ == cfg.languages@[i].0@
                    &&& r.languages@[i].1 == spec_language_from(
                        cfg.languages@[i].0,
                        cfg.timeout,
                        cfg.languages@[i].1,
                    )
                },
    {
        let default_timeout = cfg.timeout;
        let mut rest = cfg.languages;
        let ghost all = rest@;
        let mut languages: Vec<(String, Language)> = Vec::new();
        while rest.len() > 0
            invariant
                all.len() == languages@.len() + rest@.len(),
                forall|i: int|
                    0 <= i < rest@.len() ==> all[languages@.len() + i] == #[trigger] rest@[i],
                forall|i: int|
                    0 <= i < languages@.len() ==> {
                        &&& (#[trigger] languages@[i]).0@ == all[i].0@
                        &&& languages@[i].1 == spec_language_from(
                            all[i].0,
                            default_timeout,
                            all[i].1,
                        )
                    },
            decreases rest@.len(),
        {
            let (name, lc) = rest.remove(0);
            let key = name.clone();
            languages.push((key, Language::from(name, default_timeout, lc)));
        }
        let r = EvalService { timeout: default_timeout, languages };
        proof {
            assert(r@.languages =~= spec_fixup(cfg@).languages);
        }
        r
    }

    /// Looks a language up by name; `None` when none is configured under
    /// it.
    pub fn get(&self, lang: &str) -> (r: Option<&Language>)
        ensures
            r matches Some(l) ==> spec_get(self.languages@, lang@) == Some(*l),
            r is None <==> spec_get(self.languages@, lang@) is None,
    {
        let mut i: usize = 0;
        proof {
            assert(self.languages@.skip(0) =~= self.languages@);
        }
        while i < self.languages.len()
            invariant
                0 <= i <= self.languages@.len(),
                spec_get(self.languages@, lang@) == spec_get(self.languages@.skip(i as int), lang@),
                forall|j: int| 0 <= j < i ==> (#[trigger] self.languages@[j]).0@ != lang@,
            decreases self.languages@.len() - i,
        {
            proof {
                assert(self.languages@.skip(i as int)[0] == self.languages@[i as int]);
                assert(self.languages@.skip(i as int).drop_first() =~= self.languages@.skip(
                    i as int + 1,
                ));
            }
            if text::eq_str(self.languages[i].0.as_str(), lang) {
                return Some(&self.languages[i].1);
            }
            i += 1;
        }
        None
    }

    /// Builds the registry from the configuration text: the parsed
    /// configuration, with the service-wide timeout back-filled into every
    /// language. A text the grammar refuses yields an error naming the
    /// line where parsing stopped.
    pub fn from_toml(toml: &str) -> (r: Result<EvalService, String>)
        ensures
            textcfg::spec_parse_config(toml@) matches Some(c) ==> (r matches Ok(svc) && svc@
                == spec_fixup(c)),
            textcfg::spec_parse_config(toml@) is None ==> (r matches Err(e)
                && spec_parse_error_message(e@)),
    {
        match textcfg::parse_config(toml) {
            Ok(cfg) => Ok(EvalService::new(cfg)),
            Err(line) => {
                let mut e = "could not parse TOML: error at line ".to_owned();
                let num = text::format_u64(line as u64);
                e.append(num.as_str());
                proof {
                    assert(e@ =~= "could not parse TOML: error at line "@ + text::spec_dec(
                        line as int,
                    ));
                }
                Err(e)
            },
        }
    }

    /// The registry entries, for callers that list the configured
    /// languages.
    pub fn langs(&self) -> (r: &Vec<(String, Language)>)
        ensures
            r@ == self.languages@,
    {
        &self.languages
    }
}

/// Name lookup over registry entries at the level of views, first match
/// wins.
pub open spec fn spec_get_v(entries: Seq<(Seq<char>, LanguageV)>, name: Seq<char>) -> Option<
    LanguageV,
>
    decreases entries.len(),
{
    if entries.len() == 0 {
        None
    } else if entries[0].0 == name {
        Some(entries[0].1)
    } else {
        spec_get_v(entries.drop_first(), name)
    }
}

/// Looking up an entry whose name no earlier entry shares finds exactly
/// that entry.
pub proof fn lemma_get_v_at(entries: Seq<(Seq<char>, LanguageV)>, i: int)
    requires
        0 <= i < entries.len(),
        forall|k: int| 0 <= k < i ==> (#[trigger] entries[k]).0 != entries[i].0,
    ensures
        spec_get_v(entries, entries[i].0) == Some(entries[i].1),
    decreases i,
{
    if i > 0 {
        assert(entries[0].0 != entries[i].0);
        assert(forall|k: int|
            0 <= k < i - 1 ==> (#[trigger] entries.drop_first()[k]) == entries[k + 1]);
        lemma_get_v_at(entries.drop_first(), i - 1);
        assert(entries.drop_first()[i - 1] == entries[i]);
    }
}

/// Exec-level lookup agrees with view-level lookup.
pub proof fn lemma_get_matches_view(entries: Seq<(String, Language)>, name: Seq<char>)
    ensures
        match spec_get(entries, name) {
            Some(l) => spec_get_v(
                Seq::new(entries.len(), |i: int| (entries[i].0@, entries[i].1@)),
                name,
            ) == Some(l@),
            None => spec_get_v(
                Seq::new(entries.len(), |i: int| (entries[i].0@, entries[i].1@)),
                name,
            ) is None,
        },
    decreases entries.len(),
{
    let views = Seq::new(entries.len(), |i: int| (entries[i].0@, entries[i].1@));
    if entries.len() > 0 {
        assert(views[0] == (entries[0].0@, entries[0].1@));
        if entries[0].0@ == name {
        } else {
            lemma_get_matches_view(entries.drop_first(), name);
            assert(views.drop_first() =~= Seq::new(
                entries.drop_first().len(),
                |i: int| (entries.drop_first()[i].0@, entries.drop_first()[i].1@),
            )) by {
                assert(forall|i: int|
                    0 <= i < entries.drop_first().len() ==> (#[trigger] entries.drop_first()[i])
                        == entries[i + 1]);
            }
        }
    }
}

/// Printing a configuration, parsing the text back and building the
/// registry gives every language its own timeout where its record has one,
/// and the service-wide default where it has none.
pub proof fn lemma_round_trip_timeout_defaulting(c: CfgV, i: int)
    requires
        textcfg::spec_distinct_names(c.languages),
        0 <= i < c.languages.len(),
    ensures
        textcfg::spec_parse_config(textcfg::spec_print_config(c)) == Some(c),
        spec_get_v(spec_fixup(c).languages, c.languages[i].0) == Some(
            spec_language_from_v(c.languages[i].0, c.timeout, c.languages[i].1),
        ),
        spec_language_from_v(c.languages[i].0, c.timeout, c.languages[i].1).timeout == match c
            .languages[i].1.timeout {
            Some(n) => Some(n),
            None => Some(c.timeout),
        },
{
    textcfg::lemma_print_parse_round_trip(c);
    let entries = spec_fixup(c).languages;
    assert(entries[i] == (
        c.languages[i].0,
        spec_language_from_v(c.languages[i].0, c.timeout, c.languages[i].1),
    ));
    assert(forall|k: int| 0 <= k < i ==> (#[trigger] entries[k]).0 == c.languages[k].0);
    lemma_get_v_at(entries, i);
}

/// For a registry built from a parsed configuration — as `from_toml`
/// yields for the printed form of `c` — `get` finds every configured
/// language, and its timeout is the record's own, or the service default
/// where the record has none.
pub proof fn lemma_from_toml_get_timeout(svc: EvalService, c: CfgV, i: int)
    requires
        svc@ == spec_fixup(c),
        textcfg::spec_distinct_names(c.languages),
        0 <= i < c.languages.len(),
    ensures
        textcfg::spec_parse_config(textcfg::spec_print_config(c)) == Some(c),
        spec_get(svc.languages@, c.languages[i].0) matches Some(l) && l@.timeout == match c
            .languages[i].1.timeout {
            Some(n) => Some(n),
            None => Some(c.timeout),
        },
{
    lemma_round_trip_timeout_defaulting(c, i);
    lemma_get_matches_view(svc.languages@, c.languages[i].0);
    let entries = svc.languages@;
    assert(Seq::new(entries.len(), |k: int| (entries[k].0@, entries[k].1@)) =~= svc@.languages);
    match spec_get(entries, c.languages[i].0) {
        Some(l) => {
            assert(l@ == spec_language_from_v(c.languages[i].0, c.timeout, c.languages[i].1));
        },
        None => {
            assert(spec_get_v(svc@.languages, c.languages[i].0) is None);
        },
    }
}

/// Where a persistent evaluation connects.
#[derive(Debug, Clone, PartialEq)]
pub enum Target {
    /// A filesystem socket path.
    Unix(String),
    /// A TCP address.
    Tcp(String),
}

/// One evaluation, planned: everything the embedding program needs in
/// order to run it. The broker's decisions are all made here; what remains
/// is I/O.
#[derive(Debug, Clone, PartialEq)]
pub enum Eval {
    /// Spawn `program` with `args`, write `stdin` to its standard input,
    /// and hand the captured output to `exec::exec_output`.
    Exec { program: String, args: Vec<String>, stdin: String },
    /// Connect to `target`, send `req` framed as in the `wire` module,
    /// read the reply under `deadline` seconds (no deadline when `None`),
    /// and on a lapse run `kill_cmdline` and answer with
    /// `session::timeout_response`.
    Persistent {
        target: Target,
        req: wire::Req,
        deadline: Option<u32>,
        kill_cmdline: Option<Vec<String>>,
    },
}

/// The full dispatch contract: how a plan (or immediate error) relates to
/// the language, the raw code, the caller's timeout and the context key.
pub open spec fn spec_eval(
    lang: Language,
    code: &str,
    timeout: Option<u32>,
    context: Option<&str>,
    r: Result<Eval, String>,
) -> bool {
    let resolved = spec_resolve_timeout(timeout, lang.timeout);
    match lang.backend {
        Backend::Exec(b) => if b.cmdline@.len() == 0 {
            r matches Err(e) && e@ == "empty cmdline"@
        } else {
            r matches Ok(plan) && plan matches Eval::Exec { program, args, stdin } && {
                &&& program@ == b.cmdline@[0]@
                &&& args@.len() == b.cmdline@.len() - 1
                &&& forall|i: int|
                    0 <= i < args@.len() ==> (#[trigger] args@[i])@ == exec::spec_subst(
                        b.cmdline@[i + 1]@,
                        exec::spec_timeout_arg(b.timeout_prefix, resolved),
                    )
                &&& stdin@ == lang.spec_wrapped(code@)
            }
        },
        Backend::UnixSocket(b) => spec_persistent_plan(
            lang,
            code,
            context,
            resolved,
            true,
            b.socket_addr@,
            b.timeout_cmdline,
            r,
        ),
        Backend::Network(b) => spec_persistent_plan(
            lang,
            code,
            context,
            resolved,
            false,
            b.network_addr@,
            b.timeout_cmdline,
            r,
        ),
    }
}

/// The persistent half of the dispatch contract: the framed request
/// carries the resolved timeout in milliseconds, the context bytes (empty
/// when absent) and the wrapped code bytes; the deadline equals the
/// resolved timeout; the kill helper is the backend's. Oversized bodies —
/// beyond what the `u32` header fields can describe — are refused.
pub open spec fn spec_persistent_plan(
    lang: Language,
    code: &str,
    context: Option<&str>,
    resolved: Option<u32>,
    unix: bool,
    addr: Seq<char>,
    kill: Option<Vec<String>>,
    r: Result<Eval, String>,
) -> bool {
    let ctx = spec_context_bytes(context);
    let wrapped = lang.spec_wrapped_bytes(encode_utf8(code@));
    if ctx.len() <= u32::MAX && wrapped.len() <= u32::MAX {
        r matches Ok(plan) && plan matches Eval::Persistent {
            target,
            req,
            deadline,
            kill_cmdline,
        } && {
            &&& match target {
                Target::Unix(a) => unix && a@ == addr,
                Target::Tcp(a) => !unix && a@ == addr,
            }
            &&& req.timeout_ms == match resolved {
                Some(s) => spec_timeout_ms(s),
                None => 0u32,
            }
            &&& req.context@ == ctx
            &&& req.code@ == wrapped
            &&& deadline == resolved
            &&& spec_cmdline_views(kill_cmdline) == spec_cmdline_views(kill)
        }
    } else {
        r matches Err(e) && e@ == "request too large"@
    }
}

/// Plans one evaluation: resolves the timeout, wraps the code, and builds
/// the backend-specific plan — the substituted command line for an exec
/// backend, or the framed request, deadline and kill helper for a
/// persistent one. `Err` exactly for an empty exec command line or a
/// request too large for the wire's `u32` length fields.
pub fn eval(lang: &Language, code: &str, timeout: Option<u32>, context: Option<&str>) -> (r: Result<
    Eval,
    String,
>)
    ensures
        spec_eval(*lang, code, timeout, context, r),
{
    let resolved = resolve_timeout(timeout, lang.timeout);
    match &lang.backend {
        Backend::Exec(b) => {
            match exec::exec_argv(&b.cmdline, &b.timeout_prefix, resolved) {
                None => Err("empty cmdline".to_owned()),
                Some((program, args)) => Ok(
                    Eval::Exec { program, args, stdin: lang.wrap_code(code) },
                ),
            }
        },
        Backend::UnixSocket(b) => {
            let target = Target::Unix(b.socket_addr.clone());
            persistent_plan(lang, code, context, resolved, target, &b.timeout_cmdline)
        },
        Backend::Network(b) => {
            let target = Target::Tcp(b.network_addr.clone());
            persistent_plan(lang, code, context, resolved, target, &b.timeout_cmdline)
        },
    }
}

/// An explicit timeout of zero never arms a client-side deadline: whatever
/// the language's configuration, a plan built for `Some(0)` carries no
/// deadline.
pub proof fn lemma_zero_timeout_never_arms_deadline(
    lang: Language,
    code: &str,
    context: Option<&str>,
    r: Result<Eval, String>,
)
    requires
        spec_eval(lang, code, Some(0u32), context, r),
    ensures
        r matches Ok(plan) ==> match plan {
            Eval::Persistent { deadline, .. } => deadline is None,
            _ => true,
        },
{
}

/// Builds the persistent plan shared by the socket and network backends.
fn persistent_plan(
    lang: &Language,
    code: &str,
    context: Option<&str>,
    resolved: Option<u32>,
    target: Target,
    kill: &Option<Vec<String>>,
) -> (r: Result<Eval, String>)
    ensures
        spec_persistent_plan(
            *lang,
            code,
            context,
            resolved,
            target is Unix,
            match target {
                Target::Unix(a) => a@,
                Target::Tcp(a) => a@,
            },
            *kill,
            r,
        ),
{
    let ctx: Vec<u8> = match context {
        Some(c) => c.as_bytes_vec(),
        None => Vec::new(),
    };
    let wrapped = lang.wrap_code_bytes(code);
    if ctx.len() > (u32::MAX as usize) || wrapped.len() > (u32::MAX as usize) {
        return Err("request too large".to_owned());
    }
    let kill_cmdline = clone_cmdline(kill);
    Ok(
        Eval::Persistent {
            target,
            req: wire::Req { timeout_ms: timeout_ms(resolved), context: ctx, code: wrapped },
            deadline: resolved,
            kill_cmdline,
        },
    )
}

} // verus!
