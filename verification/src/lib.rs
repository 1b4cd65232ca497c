//! Forward TCP traffic across the Tor network through onion services.
//!
//! An export publishes a local TCP listener as a v3 onion service; an
//! import serves a remote onion service at a local TCP listener, reached
//! through Tor's SOCKS socket. The crate holds the verified model of that
//! pipeline: forward-expression parsing, the configuration model, Tor
//! control-protocol framing and commands, onion addresses and service keys,
//! secret-key bookkeeping, and the supervisor's decision logic. The
//! process around it performs the I/O: it spawns Tor, moves the bytes, and
//! feeds what happened back into the supervisor machine.

pub mod addr;
pub mod config;
pub mod control;
pub mod json;
pub mod keystore;
pub mod onion;
pub mod parse;
pub mod secrets;
pub mod supervisor;
pub mod text;

use vstd::prelude::*;

verus! {

use crate::addr::SockAddr;
use crate::addr::SockAddrView;
use crate::addr::spec_parse_sock_addr;
use crate::addr::spec_render_sock_addr;
use crate::onion::OnionAddrV3;
use crate::onion::OnionAddrError;
use crate::onion::spec_parse_onion_addr;
use crate::onion::spec_address_of_key;
use crate::text::spec_decimal;
use crate::text::u16_to_string;

/// Any error the forwarder reports.
#[derive(Debug, PartialEq, Eq)]
pub enum PipeError {
    /// The control socket never appeared within the backoff window.
    ConnTimeout,
    /// The control protocol failed.
    Conn(control::ConnError),
    /// Filesystem or socket I/O failed; the payload describes it.
    IO(String),
    /// The SOCKS5 handshake failed; the payload describes it.
    Socks(String),
    /// A background task failed; the payload describes it.
    Join(String),
    /// A socket address string is invalid; the payload is the string.
    ParseAddr(String),
    /// A user-facing command failed; the payload is its message.
    CLI(String),
    /// The configuration is semantically invalid.
    Config(String),
    /// The configuration text could not be decoded.
    ConfigParse(String),
    /// The secret store failed.
    SecretStore(secrets::SecretsError),
    /// A forward expression does not follow the grammar.
    ForwardParse(parse::ParseError),
    /// An onion address could not be decoded.
    OnionAddr(OnionAddrError),
}

impl PipeError {
    /// The error rendered as a message.
    pub fn message(&self) -> (r: String)
        ensures
            match self {
                PipeError::ConnTimeout => r@ == "timeout connecting to tor control socket"@,
                PipeError::Conn(_) => r@ == "failed to connect to tor control socket"@,
                PipeError::IO(m) => r@ == "i/o error: "@ + m@,
                PipeError::Socks(m) => r@ == "socks error: "@ + m@,
                PipeError::Join(m) => r@ == "join error: "@ + m@,
                PipeError::ParseAddr(m) => r@ == "invalid socket address: "@ + m@,
                PipeError::CLI(m) => r@ == "command failed: "@ + m@,
                PipeError::Config(m) => r@ == "invalid config: "@ + m@,
                PipeError::ConfigParse(m) => r@ == "config parse error: "@ + m@,
                PipeError::SecretStore(e) => r@ == "secret store error: "@ + (match e {
                    secrets::SecretsError::IO(m) => "i/o error: "@ + m@,
                }),
                PipeError::ForwardParse(e) => r@ == "forward parse error: "@ + e.0@,
                PipeError::OnionAddr(e) => r@ == "onion address parse error: "@ + (match e {
                    OnionAddrError::BadLength => "onion address has wrong length"@,
                    OnionAddrError::BadAlphabet => "onion address is not base32"@,
                    OnionAddrError::BadFormat => "onion address has a malformed suffix"@,
                    OnionAddrError::BadPort => "onion address has an invalid port"@,
                    OnionAddrError::BadVersion => "onion address has an unsupported version"@,
                    OnionAddrError::BadChecksum => "onion address has a bad checksum"@,
                }),
            },
    {
        match self {
            PipeError::ConnTimeout => String::from_str("timeout connecting to tor control socket"),
            PipeError::Conn(_) => String::from_str("failed to connect to tor control socket"),
            PipeError::IO(m) => {
                let mut s = String::from_str("i/o error: ");
                s.append(m.as_str());
                s
            },
            PipeError::Socks(m) => {
                let mut s = String::from_str("socks error: ");
                s.append(m.as_str());
                s
            },
            PipeError::Join(m) => {
                let mut s = String::from_str("join error: ");
                s.append(m.as_str());
                s
            },
            PipeError::ParseAddr(m) => {
                let mut s = String::from_str("invalid socket address: ");
                s.append(m.as_str());
                s
            },
            PipeError::CLI(m) => {
                let mut s = String::from_str("command failed: ");
                s.append(m.as_str());
                s
            },
            PipeError::Config(m) => {
                let mut s = String::from_str("invalid config: ");
                s.append(m.as_str());
                s
            },
            PipeError::ConfigParse(m) => {
                let mut s = String::from_str("config parse error: ");
                s.append(m.as_str());
                s
            },
            PipeError::SecretStore(e) => {
                let mut s = String::from_str("secret store error: ");
                let inner = e.message();
                s.append(inner.as_str());
                s
            },
            PipeError::ForwardParse(e) => {
                let mut s = String::from_str("forward parse error: ");
                s.append(e.0.as_str());
                s
            },
            PipeError::OnionAddr(e) => {
                let mut s = String::from_str("onion address parse error: ");
                let inner = e.message();
                s.append(inner.as_str());
                s
            },
        }
    }
}

/// The forwarder's result type.
pub type PipeResult<T> = core::result::Result<T, PipeError>;

/// A resolved export: the local side of an onion service.
#[derive(Debug)]
pub struct Export {
    /// The local address accepting plaintext TCP from Tor.
    pub local_addr: SockAddr,
    /// The 64-byte v3 onion service key.
    pub remote_key: Vec<u8>,
    /// The onion-side ports that all map to the local address.
    pub remote_ports: Vec<u16>,
}

/// Spec-level form of an [`Export`].
pub struct ExportView {
    pub local_addr: SockAddrView,
    pub remote_key: Seq<u8>,
    pub remote_ports: Seq<u16>,
}

impl View for Export {
    type V = ExportView;

    open spec fn view(&self) -> ExportView {
        ExportView {
            local_addr: self.local_addr@,
            remote_key: self.remote_key@,
            remote_ports: self.remote_ports@,
        }
    }
}

impl Export {
    /// A well-formed export holds a full-length service key.
    pub open spec fn wf(&self) -> bool {
        self.remote_key@.len() == 64
    }
}

/// A resolved import: a local proxy of a remote onion service.
#[derive(Debug)]
pub struct Import {
    /// The remote v3 onion address.
    pub remote_addr: OnionAddrV3,
    /// The remote onion port.
    pub remote_port: u16,
    /// The local address to listen on.
    pub local_addr: SockAddr,
}

/// Spec-level form of an [`Import`].
pub struct ImportView {
    pub remote_addr: Seq<char>,
    pub remote_port: u16,
    pub local_addr: SockAddrView,
}

impl View for Import {
    type V = ImportView;

    open spec fn view(&self) -> ImportView {
        ImportView {
            remote_addr: self.remote_addr@,
            remote_port: self.remote_port,
            local_addr: self.local_addr@,
        }
    }
}

/// A resolved forward of either direction.
pub enum Forward {
    Export(Export),
    Import(Import),
}

/// How an export's service key is to be obtained.
#[derive(Debug, PartialEq, Eq)]
pub enum KeyPlan {
    /// Look the named service up in the secret store, creating it when
    /// absent.
    EnsureService(String),
    /// Generate a fresh ephemeral key.
    Generate,
}

/// Spec-level form of a [`KeyPlan`].
pub enum KeyPlanView {
    EnsureService(Seq<char>),
    Generate,
}

impl View for KeyPlan {
    type V = KeyPlanView;

    open spec fn view(&self) -> KeyPlanView {
        match self {
            KeyPlan::EnsureService(n) => KeyPlanView::EnsureService(n@),
            KeyPlan::Generate => KeyPlanView::Generate,
        }
    }
}

impl DeepView for KeyPlan {
    type V = KeyPlanView;

    open spec fn deep_view(&self) -> KeyPlanView {
        self.view()
    }
}

/// How one configured export obtains its key: a named service needs the
/// secret store; an anonymous one generates a fresh key.
pub open spec fn spec_key_plan(e: config::ExportView, store: bool) -> Result<KeyPlanView, ()> {
    match e.service_name {
        Some(n) => if store {
            Ok(KeyPlanView::EnsureService(n))
        } else {
            Err(())
        },
        None => Ok(KeyPlanView::Generate),
    }
}

/// The key plans of the configured exports from `i` on, appended to those
/// already planned; a named export without a configured store poisons the
/// list.
pub open spec fn spec_key_plans_fold(
    es: Seq<config::ExportView>,
    store: bool,
    i: int,
    acc: Seq<KeyPlanView>,
) -> Result<Seq<KeyPlanView>, ()>
    decreases es.len() - i,
{
    if i < 0 || i >= es.len() {
        Ok(acc)
    } else {
        match spec_key_plan(es[i], store) {
            Err(e) => Err(e),
            Ok(p) => spec_key_plans_fold(es, store, i + 1, acc.push(p)),
        }
    }
}

/// The key plans of all configured exports, in order.
pub open spec fn spec_key_plans(es: Seq<config::ExportView>, store: bool) -> Result<
    Seq<KeyPlanView>,
    (),
> {
    spec_key_plans_fold(es, store, 0, Seq::empty())
}

/// The planned values agree with the spec plans, element by element.
pub open spec fn plans_match(ls: Seq<KeyPlan>, gs: Seq<KeyPlanView>) -> bool {
    ls.len() == gs.len() && forall|k: int| 0 <= k < gs.len() ==> (#[trigger] ls[k])@ == gs[k]
}

/// Plans how each export of a configuration obtains its key. A named
/// service without a configured secret store is a configuration error.
pub fn key_requests(cfg: &config::Config, store_configured: bool) -> (r: Result<
    Vec<KeyPlan>,
    PipeError,
>)
    ensures
        match spec_key_plans(cfg.exports.deep_view(), store_configured) {
            Ok(ps) => r matches Ok(v) && plans_match(v@, ps),
            Err(_) => r matches Err(e) && (e matches PipeError::Config(m) && m@
                == "secret store not configured"@),
        },
{
    let ghost ges = cfg.exports.deep_view();
    let mut plans: Vec<KeyPlan> = Vec::new();
    let ghost mut gplans: Seq<KeyPlanView> = Seq::empty();
    let n = cfg.exports.len();
    let mut i: usize = 0;
    proof {
        assert(ges.len() == cfg.exports@.len());
    }
    while i < n
        invariant
            i <= n,
            n == cfg.exports@.len(),
            ges == cfg.exports.deep_view(),
            spec_key_plans(ges, store_configured) == spec_key_plans_fold(
                ges,
                store_configured,
                i as int,
                gplans,
            ),
            plans_match(plans@, gplans),
        decreases n - i,
    {
        proof {
            assert(ges[i as int] == cfg.exports@[i as int].deep_view());
        }
        let plan = match &cfg.exports[i].service_name {
            Some(name) => {
                if store_configured {
                    KeyPlan::EnsureService(name.clone())
                } else {
                    return Err(PipeError::Config(String::from_str("secret store not configured")));
                }
            },
            None => KeyPlan::Generate,
        };
        proof {
            gplans = gplans.push(plan@);
        }
        plans.push(plan);
        proof {
            assert(plans_match(plans@, gplans));
        }
        i = i + 1;
    }
    Ok(plans)
}

/// Resolves one configured export against its key: the local address must
/// be a valid socket address.
pub fn export_from_config(cfg: &config::Export, key: Vec<u8>) -> (r: Result<Export, PipeError>)
    requires
        key@.len() == 64,
    ensures
        match spec_parse_sock_addr(cfg.local_addr@) {
            Some(a) => r matches Ok(e) && e@.local_addr == a && e@.remote_key == key@
                && e@.remote_ports == cfg.remote_ports@ && e.wf(),
            None => r matches Err(e) && (e matches PipeError::ParseAddr(m) && m@
                == cfg.local_addr@),
        },
{
    match addr::parse_sock_addr(cfg.local_addr.as_str()) {
        Some(a) => Ok(
            Export { local_addr: a, remote_key: key, remote_ports: cfg.remote_ports.clone() },
        ),
        None => Err(PipeError::ParseAddr(cfg.local_addr.clone())),
    }
}

/// Resolves one configured import: the remote address must be a v3 onion
/// address, the local address a valid socket address. A failure of v3
/// decoding itself is an onion-address error; a malformed written form or
/// port around it is a configuration error naming the address.
pub fn import_from_config(cfg: &config::Import) -> (r: Result<Import, PipeError>)
    ensures
        match spec_parse_onion_addr(cfg.remote_addr@) {
            Err(oe) => if onion::is_v3_decode_error(oe) {
                r matches Err(e) && (e matches PipeError::OnionAddr(o2) && o2 == oe)
            } else {
                r matches Err(e) && (e matches PipeError::Config(m) && m@
                    == "invalid onion address "@ + cfg.remote_addr@)
            },
            Ok((a, p)) => match spec_parse_sock_addr(cfg.local_addr@) {
                Some(la) => r matches Ok(im) && im@.remote_addr == a && im@.remote_port == p
                    && im@.local_addr == la,
                None => r matches Err(e) && (e matches PipeError::ParseAddr(m) && m@
                    == cfg.local_addr@),
            },
        },
{
    let (remote, port) = match onion::parse_onion_addr(cfg.remote_addr.as_str()) {
        Ok(p) => p,
        Err(oe) => {
            match oe {
                OnionAddrError::BadFormat | OnionAddrError::BadPort => {
                    let mut m = String::from_str("invalid onion address ");
                    m.append(cfg.remote_addr.as_str());
                    return Err(PipeError::Config(m));
                },
                _ => {
                    return Err(PipeError::OnionAddr(oe));
                },
            }
        },
    };
    match addr::parse_sock_addr(cfg.local_addr.as_str()) {
        Some(la) => Ok(Import { remote_addr: remote, remote_port: port, local_addr: la }),
        None => Err(PipeError::ParseAddr(cfg.local_addr.clone())),
    }
}

/// Builds an [`OnionPipe`] from forwards and directories.
pub struct OnionPipeBuilder {
    temp_dir: String,
    exports: Vec<Export>,
    imports: Vec<Import>,
    secret_store: Option<secrets::SecretStore>,
}

/// Spec-level form of an [`OnionPipeBuilder`].
pub struct BuilderView {
    pub temp_dir: Seq<char>,
    pub exports: Seq<ExportView>,
    pub imports: Seq<ImportView>,
    pub store_dir: Option<Seq<char>>,
}

impl View for OnionPipeBuilder {
    type V = BuilderView;

    closed spec fn view(&self) -> BuilderView {
        BuilderView {
            temp_dir: self.temp_dir@,
            exports: Seq::new(self.exports@.len(), |i: int| self.exports@[i]@),
            imports: Seq::new(self.imports@.len(), |i: int| self.imports@[i]@),
            store_dir: match self.secret_store {
                Some(ref s) => Some(s.dir()),
                None => None,
            },
        }
    }
}

impl OnionPipeBuilder {
    /// Sets the directory under which the working directory is created.
    pub fn temp_dir(self, temp_dir: &str) -> (r: OnionPipeBuilder)
        ensures
            r@.temp_dir == temp_dir@,
            r@.exports == self@.exports,
            r@.imports == self@.imports,
            r@.store_dir == self@.store_dir,
    {
        let r = OnionPipeBuilder { temp_dir: String::from_str(temp_dir), ..self };
        proof {
            assert(r@.exports =~= self@.exports);
            assert(r@.imports =~= self@.imports);
        }
        r
    }

    /// Installs a secret store rooted at the given directory.
    pub fn secrets_dir(self, secrets_dir: &str) -> (r: OnionPipeBuilder)
        ensures
            r@.store_dir == Some(secrets_dir@),
            r@.temp_dir == self@.temp_dir,
            r@.exports == self@.exports,
            r@.imports == self@.imports,
    {
        let r = OnionPipeBuilder {
            secret_store: Some(secrets::SecretStore::new(secrets_dir)),
            ..self
        };
        proof {
            assert(r@.exports =~= self@.exports);
            assert(r@.imports =~= self@.imports);
        }
        r
    }

    /// Appends one resolved export.
    pub fn export(self, export: Export) -> (r: OnionPipeBuilder)
        ensures
            r@.exports == self@.exports.push(export@),
            r@.imports == self@.imports,
            r@.temp_dir == self@.temp_dir,
            r@.store_dir == self@.store_dir,
    {
        let ghost ev = export@;
        let ghost old_exports = self@.exports;
        let ghost old_imports = self@.imports;
        let mut exports = self.exports;
        exports.push(export);
        let r = OnionPipeBuilder { exports, ..self };
        proof {
            assert(r@.exports =~= old_exports.push(ev));
            assert(r@.imports =~= old_imports);
        }
        r
    }

    /// Appends one resolved import.
    pub fn import(self, import: Import) -> (r: OnionPipeBuilder)
        ensures
            r@.imports == self@.imports.push(import@),
            r@.exports == self@.exports,
            r@.temp_dir == self@.temp_dir,
            r@.store_dir == self@.store_dir,
    {
        let ghost iv = import@;
        let ghost old_exports = self@.exports;
        let ghost old_imports = self@.imports;
        let mut imports = self.imports;
        imports.push(import);
        let r = OnionPipeBuilder { imports, ..self };
        proof {
            assert(r@.imports =~= old_imports.push(iv));
            assert(r@.exports =~= old_exports);
        }
        r
    }

    /// Whether a secret store is installed.
    pub fn has_secret_store(&self) -> (r: bool)
        ensures
            r == (self@.store_dir is Some),
    {
        match self.secret_store {
            Some(_) => true,
            None => false,
        }
    }

    /// The directory under which the working directory is created.
    pub fn temp_dir_path(&self) -> (r: String)
        ensures
            r@ == self@.temp_dir,
    {
        self.temp_dir.clone()
    }

    /// Turns the builder into a pipe rooted at a fresh working directory.
    pub fn new(self, work_dir: &str) -> (r: OnionPipe)
        ensures
            r.data_dir@ == work_dir@ + "/data"@,
            r.control_sock@ == work_dir@ + "/data/control.sock"@,
            r.socks_sock@ == work_dir@ + "/data/socks.sock"@,
            Seq::new(r.exports@.len(), |i: int| r.exports@[i]@) == self@.exports,
            Seq::new(r.imports@.len(), |i: int| r.imports@[i]@) == self@.imports,
    {
        let (data_dir, control_sock, socks_sock) = derive_paths(work_dir);
        OnionPipe {
            data_dir,
            control_sock,
            socks_sock,
            exports: self.exports,
            imports: self.imports,
        }
    }

    /// The installed secret store's directory.
    pub fn secret_store_dir(&self) -> (r: Option<String>)
        ensures
            match self@.store_dir {
                Some(d) => r matches Some(s) && s@ == d,
                None => r is None,
            },
    {
        match &self.secret_store {
            Some(s) => Some(s.dir_string()),
            None => None,
        }
    }
}

/// Why resolving a configured import failed.
pub enum ImportErrView {
    /// The v3 decoding of this remote address failed.
    Onion(OnionAddrError),
    /// The written form around this remote address is malformed.
    BadAddr(Seq<char>),
    /// This local address is not a socket address.
    Local(Seq<char>),
}

/// The configured exports from `i` on resolved against their keys and
/// appended to `acc`; an export whose local address does not parse is the
/// error.
pub open spec fn spec_resolve_exports(
    es: Seq<config::ExportView>,
    keys: Seq<Seq<u8>>,
    i: int,
    acc: Seq<ExportView>,
) -> Result<Seq<ExportView>, Seq<char>>
    decreases es.len() - i,
{
    if i < 0 || i >= es.len() {
        Ok(acc)
    } else {
        match spec_parse_sock_addr(es[i].local_addr) {
            None => Err(es[i].local_addr),
            Some(a) => spec_resolve_exports(
                es,
                keys,
                i + 1,
                acc.push(
                    ExportView {
                        local_addr: a,
                        remote_key: keys[i],
                        remote_ports: es[i].remote_ports,
                    },
                ),
            ),
        }
    }
}

/// The configured imports from `i` on resolved and appended to `acc`; an
/// import whose onion address or local address does not parse is the
/// error.
pub open spec fn spec_resolve_imports(
    is: Seq<config::ImportView>,
    i: int,
    acc: Seq<ImportView>,
) -> Result<Seq<ImportView>, ImportErrView>
    decreases is.len() - i,
{
    if i < 0 || i >= is.len() {
        Ok(acc)
    } else {
        match spec_parse_onion_addr(is[i].remote_addr) {
            Err(oe) => if onion::is_v3_decode_error(oe) {
                Err(ImportErrView::Onion(oe))
            } else {
                Err(ImportErrView::BadAddr(is[i].remote_addr))
            },
            Ok((a, p)) => match spec_parse_sock_addr(is[i].local_addr) {
                None => Err(ImportErrView::Local(is[i].local_addr)),
                Some(la) => spec_resolve_imports(
                    is,
                    i + 1,
                    acc.push(ImportView { remote_addr: a, remote_port: p, local_addr: la }),
                ),
            },
        }
    }
}

impl OnionPipeBuilder {
    /// Merges a configuration: installs its secrets directory when given,
    /// resolves and appends its exports against the given keys (one
    /// 64-byte key per export, planned by [`key_requests`]) and its
    /// imports, and installs its working directory when given.
    #[verifier::loop_isolation(false)]
    pub fn config(self, cfg: config::Config, keys: Vec<Vec<u8>>) -> (r: Result<
        OnionPipeBuilder,
        PipeError,
    >)
        requires
            keys@.len() == cfg.exports@.len(),
            forall|k: int| 0 <= k < keys@.len() ==> (#[trigger] keys@[k])@.len() == 64,
        ensures
            match spec_resolve_exports(
                cfg.exports.deep_view(),
                keys.deep_view(),
                0,
                self@.exports,
            ) {
                Err(bad) => r matches Err(e) && (e matches PipeError::ParseAddr(m) && m@ == bad),
                Ok(es) => match spec_resolve_imports(cfg.imports.deep_view(), 0, self@.imports) {
                    Err(ImportErrView::Onion(oe)) => r matches Err(e) && (e
                        matches PipeError::OnionAddr(o2) && o2 == oe),
                    Err(ImportErrView::BadAddr(a)) => r matches Err(e) && (e
                        matches PipeError::Config(m) && m@ == "invalid onion address "@ + a),
                    Err(ImportErrView::Local(a)) => r matches Err(e) && (e
                        matches PipeError::ParseAddr(m) && m@ == a),
                    Ok(is) => r matches Ok(b) && b@.exports == es && b@.imports == is
                        && b@.store_dir == (match cfg@.secrets_dir {
                        Some(d) => Some(d),
                        None => self@.store_dir,
                    }) && b@.temp_dir == (match cfg@.temp_dir {
                        Some(t) => t,
                        None => self@.temp_dir,
                    }),
                },
            },
    {
        let ghost self0 = self@;
        let config::Config { temp_dir, secrets_dir, exports, imports } = cfg;
        let ghost ges = exports.deep_view();
        let ghost gis = imports.deep_view();
        let ghost gkeys = keys.deep_view();
        let mut b = self;
        match &secrets_dir {
            Some(d) => {
                b = b.secrets_dir(d.as_str());
            },
            None => {},
        }
        let n = exports.len();
        let mut i: usize = 0;
        while i < n
            invariant
                i <= n,
                n == exports@.len(),
                keys@.len() == exports@.len(),
                forall|k: int| 0 <= k < keys@.len() ==> (#[trigger] keys@[k])@.len() == 64,
                ges == exports.deep_view(),
                gkeys == keys.deep_view(),
                spec_resolve_exports(ges, gkeys, 0, self0.exports) == spec_resolve_exports(
                    ges,
                    gkeys,
                    i as int,
                    b@.exports,
                ),
                b@.imports == self0.imports,
                b@.temp_dir == self0.temp_dir,
                b@.store_dir == (match secrets_dir {
                    Some(ref d) => Some(d@),
                    None => self0.store_dir,
                }),
            decreases n - i,
        {
            proof {
                assert(ges[i as int] == exports@[i as int].deep_view());
                assert(gkeys[i as int] == keys@[i as int]@);
            }
            let key = keys[i].clone();
            match export_from_config(&exports[i], key) {
                Ok(e) => {
                    b = b.export(e);
                },
                Err(e) => {
                    return Err(e);
                },
            }
            i = i + 1;
        }
        let m = imports.len();
        let mut j: usize = 0;
        while j < m
            invariant
                j <= m,
                m == imports@.len(),
                gis == imports.deep_view(),
                spec_resolve_exports(ges, gkeys, 0, self0.exports) == Ok::<_, Seq<char>>(
                    b@.exports,
                ),
                spec_resolve_imports(gis, 0, self0.imports) == spec_resolve_imports(
                    gis,
                    j as int,
                    b@.imports,
                ),
                b@.temp_dir == self0.temp_dir,
                b@.store_dir == (match secrets_dir {
                    Some(ref d) => Some(d@),
                    None => self0.store_dir,
                }),
            decreases m - j,
        {
            proof {
                assert(gis[j as int] == imports@[j as int].deep_view());
            }
            match import_from_config(&imports[j]) {
                Ok(im) => {
                    b = b.import(im);
                },
                Err(e) => {
                    return Err(e);
                },
            }
            j = j + 1;
        }
        match &temp_dir {
            Some(t) => {
                b = b.temp_dir(t.as_str());
            },
            None => {},
        }
        Ok(b)
    }
}

/// The pipe's working paths, derived from a fresh working directory:
/// `data`, and the control and SOCKS sockets inside it.
pub fn derive_paths(work_dir: &str) -> (r: (String, String, String))
    ensures
        r.0@ == work_dir@ + "/data"@,
        r.1@ == work_dir@ + "/data/control.sock"@,
        r.2@ == work_dir@ + "/data/socks.sock"@,
{
    let mut data = String::from_str(work_dir);
    data.append("/data");
    let mut control_sock = data.clone();
    control_sock.append("/control.sock");
    let mut socks_sock = data.clone();
    socks_sock.append("/socks.sock");
    proof {
        reveal_strlit("/data");
        reveal_strlit("/control.sock");
        reveal_strlit("/socks.sock");
        reveal_strlit("/data/control.sock");
        reveal_strlit("/data/socks.sock");
        assert(control_sock@ =~= work_dir@ + "/data/control.sock"@);
        assert(socks_sock@ =~= work_dir@ + "/data/socks.sock"@);
    }
    (data, control_sock, socks_sock)
}

/// A configured forwarding pipe: its working paths and its forwards. The
/// caller owns the working directory and the running Tor; this value holds
/// the plan.
pub struct OnionPipe {
    pub data_dir: String,
    pub control_sock: String,
    pub socks_sock: String,
    pub exports: Vec<Export>,
    pub imports: Vec<Import>,
}

impl OnionPipe {
    /// A builder with defaults: the working directory under `/tmp`, no
    /// forwards, no secret store.
    pub fn defaults() -> (r: OnionPipeBuilder)
        ensures
            r@.temp_dir == "/tmp"@,
            r@.exports == Seq::<ExportView>::empty(),
            r@.imports == Seq::<ImportView>::empty(),
            r@.store_dir is None,
    {
        let r = OnionPipeBuilder {
            temp_dir: String::from_str("/tmp"),
            exports: Vec::new(),
            imports: Vec::new(),
            secret_store: None,
        };
        proof {
            assert(r@.exports =~= Seq::<ExportView>::empty());
            assert(r@.imports =~= Seq::<ImportView>::empty());
        }
        r
    }
}

/// Ports joined with commas, in order.
pub open spec fn spec_ports_csv(ps: Seq<u16>) -> Seq<char>
    decreases ps.len(),
{
    if ps.len() == 0 {
        Seq::empty()
    } else if ps.len() == 1 {
        spec_decimal(ps[0] as nat)
    } else {
        spec_ports_csv(ps.drop_last()) + seq![','] + spec_decimal(ps.last() as nat)
    }
}

/// Renders ports joined with commas.
pub fn ports_csv(ps: &Vec<u16>) -> (r: String)
    ensures
        r@ == spec_ports_csv(ps@),
{
    let mut s = String::new();
    let mut i: usize = 0;
    while i < ps.len()
        invariant
            i <= ps@.len(),
            s@ == spec_ports_csv(ps@.take(i as int)),
        decreases ps@.len() - i,
    {
        if i > 0 {
            s.append(",");
        }
        let p = u16_to_string(ps[i]);
        s.append(p.as_str());
        proof {
            reveal_strlit(",");
            assert(","@ =~= seq![',']);
            assert(ps@.take(i + 1).drop_last() =~= ps@.take(i as int));
            assert(ps@.take(i + 1).last() == ps@[i as int]);
            assert(s@ =~= spec_ports_csv(ps@.take(i + 1)));
        }
        i = i + 1;
    }
    proof {
        assert(ps@.take(ps@.len() as int) =~= ps@);
    }
    s
}

/// The line announcing one export: its local address, its onion address
/// with the `.onion` suffix, and its onion ports.
pub open spec fn spec_export_banner(e: ExportView) -> Seq<char> {
    "forward "@ + spec_render_sock_addr(e.local_addr) + " => "@ + spec_address_of_key(
        e.remote_key,
    ) + ".onion"@ + seq![':'] + spec_ports_csv(e.remote_ports)
}

/// Renders the line announcing one export.
pub fn export_banner(e: &Export) -> (r: String)
    requires
        e.wf(),
    ensures
        r@ == spec_export_banner(e@),
{
    let mut s = String::from_str("forward ");
    let local = e.local_addr.render();
    s.append(local.as_str());
    s.append(" => ");
    let a = onion::derive_onion_address(&e.remote_key);
    let addr_text = a.with_dot_onion();
    s.append(addr_text.as_str());
    s.append(":");
    let csv = ports_csv(&e.remote_ports);
    s.append(csv.as_str());
    proof {
        reveal_strlit(":");
        assert(":"@ =~= seq![':']);
        assert(s@ =~= spec_export_banner(e@));
    }
    s
}

/// The line announcing one import: its onion address and port, and its
/// local address.
pub open spec fn spec_import_banner(i: ImportView) -> Seq<char> {
    "forward "@ + i.remote_addr + ".onion"@ + seq![':'] + spec_decimal(i.remote_port as nat)
        + " => "@ + spec_render_sock_addr(i.local_addr)
}

/// Renders the line announcing one import.
pub fn import_banner(i: &Import) -> (r: String)
    ensures
        r@ == spec_import_banner(i@),
{
    let mut s = String::from_str("forward ");
    let addr_text = i.remote_addr.with_dot_onion();
    s.append(addr_text.as_str());
    s.append(":");
    let p = u16_to_string(i.remote_port);
    s.append(p.as_str());
    s.append(" => ");
    let local = i.local_addr.render();
    s.append(local.as_str());
    proof {
        reveal_strlit(":");
        assert(":"@ =~= seq![':']);
        assert(s@ =~= spec_import_banner(i@));
    }
    s
}

/// Two exports sharing one service name publish one onion address: the
/// store hands both the same key, and a key fixes its address.
pub proof fn lemma_same_service_same_address(
    m: Map<Seq<char>, Seq<u8>>,
    name: Seq<char>,
    fresh1: Seq<u8>,
    fresh2: Seq<u8>,
)
    requires
        secrets::store_wf(m, 64),
        fresh1.len() == 64,
        fresh2.len() == 64,
    ensures
        ({
            let (m1, k1) = secrets::store_ensure(m, name, fresh1);
            let (_, k2) = secrets::store_ensure(m1, name, fresh2);
            spec_address_of_key(k2) == spec_address_of_key(k1)
        }),
{
    secrets::lemma_ensure_stable(m, name, fresh1, fresh2, 64);
}

} // verus!
