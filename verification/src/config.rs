//! The configuration model: what a run of the forwarder is asked to do.
//!
//! A configuration carries exports and imports with their addresses still
//! as text, plus optional working and secrets directories. It can be built
//! from parsed forward expressions; decoding it from JSON lives in the
//! JSON module.

use vstd::prelude::*;

verus! {

use crate::parse;
use crate::parse::ForwardView;
use crate::parse::HostView;
use crate::parse::ImportLocalAddrView;
use crate::text::spec_decimal;
use crate::text::u16_to_string;

/// A whole configuration.
#[derive(Debug, PartialEq)]
pub struct Config {
    pub temp_dir: Option<String>,
    pub secrets_dir: Option<String>,
    pub exports: Vec<Export>,
    pub imports: Vec<Import>,
}

/// One export: a local TCP address published at onion ports, optionally
/// under a named persistent service key.
#[derive(Debug, PartialEq, Clone)]
pub struct Export {
    pub local_addr: String,
    pub service_name: Option<String>,
    pub remote_ports: Vec<u16>,
}

/// One import: a remote onion address proxied at a local TCP address.
#[derive(Debug, PartialEq, Clone)]
pub struct Import {
    pub remote_addr: String,
    pub local_addr: String,
}

/// A configured forward of either direction.
pub enum Forward {
    Import(Import),
    Export(Export),
}

/// Spec-level form of an [`Export`].
pub struct ExportView {
    pub local_addr: Seq<char>,
    pub service_name: Option<Seq<char>>,
    pub remote_ports: Seq<u16>,
}

/// Spec-level form of an [`Import`].
pub struct ImportView {
    pub remote_addr: Seq<char>,
    pub local_addr: Seq<char>,
}

/// Spec-level form of a [`Config`].
pub struct ConfigView {
    pub temp_dir: Option<Seq<char>>,
    pub secrets_dir: Option<Seq<char>>,
    pub exports: Seq<ExportView>,
    pub imports: Seq<ImportView>,
}

impl View for Export {
    type V = ExportView;

    open spec fn view(&self) -> ExportView {
        ExportView {
            local_addr: self.local_addr@,
            service_name: match self.service_name {
                Some(ref s) => Some(s@),
                None => None,
            },
            remote_ports: self.remote_ports@,
        }
    }
}

impl View for Import {
    type V = ImportView;

    open spec fn view(&self) -> ImportView {
        ImportView { remote_addr: self.remote_addr@, local_addr: self.local_addr@ }
    }
}

impl View for Config {
    type V = ConfigView;

    open spec fn view(&self) -> ConfigView {
        ConfigView {
            temp_dir: match self.temp_dir {
                Some(ref s) => Some(s@),
                None => None,
            },
            secrets_dir: match self.secrets_dir {
                Some(ref s) => Some(s@),
                None => None,
            },
            exports: self.exports.deep_view(),
            imports: self.imports.deep_view(),
        }
    }
}

impl DeepView for Export {
    type V = ExportView;

    open spec fn deep_view(&self) -> ExportView {
        self.view()
    }
}

impl DeepView for Import {
    type V = ImportView;

    open spec fn deep_view(&self) -> ImportView {
        self.view()
    }
}

/// A host rendered as text: a name as it stands, an IPv4 address dotted.
pub open spec fn spec_render_host(h: HostView) -> Seq<char> {
    match h {
        HostView::Name(s) => s,
        HostView::Ip4(ip) => spec_decimal(ip[0] as nat) + seq!['.'] + spec_decimal(ip[1] as nat)
            + seq!['.'] + spec_decimal(ip[2] as nat) + seq!['.'] + spec_decimal(ip[3] as nat),
    }
}

/// Renders a parsed host.
pub fn render_host(h: &parse::Host) -> (r: String)
    ensures
        r@ == spec_render_host(h@),
{
    match h {
        parse::Host::HOST(s) => s.clone(),
        parse::Host::IP4(ip) => {
            let mut s = u16_to_string(ip[0] as u16);
            s.append(".");
            let o1 = u16_to_string(ip[1] as u16);
            s.append(o1.as_str());
            s.append(".");
            let o2 = u16_to_string(ip[2] as u16);
            s.append(o2.as_str());
            s.append(".");
            let o3 = u16_to_string(ip[3] as u16);
            s.append(o3.as_str());
            proof {
                reveal_strlit(".");
                assert("."@ =~= seq!['.']);
                assert(s@ =~= spec_render_host(h@));
            }
            s
        },
    }
}

/// The loopback host that omitted hosts default to.
pub open spec fn spec_localhost() -> Seq<char> {
    spec_render_host(HostView::Ip4(seq![127u8, 0, 0, 1]))
}

/// An export's local side rendered as `host:port`, the host defaulting to
/// localhost.
pub open spec fn spec_render_export_local(a: parse::ExportLocalTcpView) -> Seq<char> {
    (match a.host {
        Some(h) => spec_render_host(h),
        None => spec_localhost(),
    }) + seq![':'] + spec_decimal(a.port as nat)
}

/// Renders an export's local side.
fn render_export_local(a: &parse::ExportLocalTCPAddr) -> (r: String)
    ensures
        r@ == spec_render_export_local(a@),
{
    let mut s = match &a.host {
        Some(h) => render_host(h),
        None => {
            let localhost = parse::Host::IP4([127, 0, 0, 1]);
            proof {
                assert(localhost@->Ip4_0 =~= seq![127u8, 0, 0, 1]);
            }
            render_host(&localhost)
        },
    };
    s.append(":");
    let p = u16_to_string(a.port);
    s.append(p.as_str());
    proof {
        reveal_strlit(":");
        assert(":"@ =~= seq![':']);
        assert(s@ =~= spec_render_export_local(a@));
    }
    s
}

/// What a parsed export becomes in configuration: its rendered local
/// address, its alias as the service name, and its ports, defaulting to
/// port 80 when no remote side was given.
pub open spec fn spec_export_of_forward(e: parse::ExportForwardView) -> ExportView {
    let local = match e.local {
        parse::ExportLocalAddrView::Tcp(a) => spec_render_export_local(a),
    };
    match e.remote {
        Some(rem) => ExportView {
            local_addr: local,
            service_name: rem.onion_alias,
            remote_ports: rem.ports,
        },
        None => ExportView { local_addr: local, service_name: None, remote_ports: seq![80u16] },
    }
}

/// Converts a parsed export into a configured one.
pub fn export_of_forward(e: parse::ExportForward) -> (r: Export)
    ensures
        r@ == spec_export_of_forward(e@),
{
    let parse::ExportForward { local, remote } = e;
    let parse::ExportLocalAddr::TCP(a) = local;
    let local_addr = render_export_local(&a);
    match remote {
        Some(rem) => {
            let parse::ExportRemoteAddr { onion_alias, ports } = rem;
            Export { local_addr, service_name: onion_alias, remote_ports: ports }
        },
        None => {
            let mut ports: Vec<u16> = Vec::new();
            ports.push(80);
            proof {
                assert(ports@ =~= seq![80u16]);
            }
            Export { local_addr, service_name: None, remote_ports: ports }
        },
    }
}

/// What a parsed import becomes in configuration: the onion address with
/// its port (defaulting to 80), and the rendered local address; an omitted
/// local side becomes `127.0.0.1:8080`, an omitted local host or port
/// defaults to `127.0.0.1` and 8080 alone.
pub open spec fn spec_import_of_forward(i: parse::ImportForwardView) -> ImportView {
    let remote = i.remote.onion + seq![':'] + spec_decimal(
        (match i.remote.port {
            Some(p) => p,
            None => 80u16,
        }) as nat,
    );
    let local = match i.local {
        Some(ImportLocalAddrView::Tcp(a)) => (match a.host {
            Some(h) => spec_render_host(h),
            None => spec_localhost(),
        }) + seq![':'] + spec_decimal(
            (match a.port {
                Some(p) => p,
                None => 8080u16,
            }) as nat,
        ),
        None => spec_localhost() + seq![':'] + spec_decimal(8080nat),
    };
    ImportView { remote_addr: remote, local_addr: local }
}

/// Converts a parsed import into a configured one.
pub fn import_of_forward(i: parse::ImportForward) -> (r: Import)
    ensures
        r@ == spec_import_of_forward(i@),
{
    let parse::ImportForward { remote, local } = i;
    let parse::ImportRemoteAddr { onion, port } = remote;
    let mut remote_addr = onion;
    remote_addr.append(":");
    let rp = u16_to_string(
        match port {
            Some(p) => p,
            None => 80,
        },
    );
    remote_addr.append(rp.as_str());
    let local_addr = match local {
        Some(parse::ImportLocalAddr::TCP(a)) => {
            let mut s = match &a.host {
                Some(h) => render_host(h),
                None => {
                    let localhost = parse::Host::IP4([127, 0, 0, 1]);
                    proof {
                        assert(localhost@->Ip4_0 =~= seq![127u8, 0, 0, 1]);
                    }
                    render_host(&localhost)
                },
            };
            s.append(":");
            let lp = u16_to_string(
                match a.port {
                    Some(p) => p,
                    None => 8080,
                },
            );
            s.append(lp.as_str());
            s
        },
        None => {
            let localhost = parse::Host::IP4([127, 0, 0, 1]);
            proof {
                assert(localhost@->Ip4_0 =~= seq![127u8, 0, 0, 1]);
            }
            let mut s = render_host(&localhost);
            s.append(":");
            let lp = u16_to_string(8080);
            s.append(lp.as_str());
            s
        },
    };
    let r = Import { remote_addr, local_addr };
    proof {
        reveal_strlit(":");
        assert(":"@ =~= seq![':']);
        assert(r@.remote_addr =~= spec_import_of_forward(i@).remote_addr);
        assert(r@.local_addr =~= spec_import_of_forward(i@).local_addr);
    }
    r
}

/// The exports and imports contributed by the expressions from `i` on,
/// appended to those already collected; the first expression that does not
/// parse is the error, rendered as its message.
pub open spec fn spec_config_fold(
    exprs: Seq<Seq<char>>,
    i: int,
    es: Seq<ExportView>,
    is: Seq<ImportView>,
) -> Result<(Seq<ExportView>, Seq<ImportView>), Seq<char>>
    decreases exprs.len() - i,
{
    if i < 0 || i >= exprs.len() {
        Ok((es, is))
    } else {
        match parse::spec_forward(exprs[i]) {
            Err(fs) => Err(parse::spec_error_message(fs)),
            Ok((_, f)) => match f {
                ForwardView::Export(e) => spec_config_fold(
                    exprs,
                    i + 1,
                    es.push(spec_export_of_forward(e)),
                    is,
                ),
                ForwardView::Import(im) => spec_config_fold(
                    exprs,
                    i + 1,
                    es,
                    is.push(spec_import_of_forward(im)),
                ),
            },
        }
    }
}

/// What a list of forward expressions becomes: each expression parsed and
/// appended to the exports or the imports in order.
pub open spec fn spec_config_of_exprs(exprs: Seq<Seq<char>>) -> Result<
    (Seq<ExportView>, Seq<ImportView>),
    Seq<char>,
> {
    spec_config_fold(exprs, 0, Seq::empty(), Seq::empty())
}

/// Builds a configuration from forward expressions: each is parsed and
/// appended to the exports or the imports, keeping order; the first
/// expression that does not parse is the error.
pub fn config_of_exprs(exprs: &Vec<String>) -> (r: Result<Config, parse::ParseError>)
    ensures
        match spec_config_of_exprs(exprs.deep_view()) {
            Ok((es, is)) => r matches Ok(c) && c@.exports == es && c@.imports == is && c@.temp_dir
                is None && c@.secrets_dir is None,
            Err(m) => r matches Err(e) && e.0@ == m,
        },
{
    let ghost gexprs = exprs.deep_view();
    let mut exports: Vec<Export> = Vec::new();
    let mut imports: Vec<Import> = Vec::new();
    let n = exprs.len();
    let mut i: usize = 0;
    proof {
        assert(exports.deep_view() =~= Seq::<ExportView>::empty());
        assert(imports.deep_view() =~= Seq::<ImportView>::empty());
    }
    while i < n
        invariant
            i <= n,
            n == exprs@.len(),
            gexprs == exprs.deep_view(),
            spec_config_of_exprs(gexprs) == spec_config_fold(
                gexprs,
                i as int,
                exports.deep_view(),
                imports.deep_view(),
            ),
        decreases n - i,
    {
        proof {
            assert(gexprs[i as int] == exprs@[i as int]@);
        }
        match parse::parse_forward(exprs[i].as_str()) {
            Err(e) => {
                return Err(e);
            },
            Ok(f) => match f {
                parse::Forward::Export(e) => {
                    let ghost prev = exports.deep_view();
                    let ce = export_of_forward(e);
                    exports.push(ce);
                    proof {
                        assert(exports.deep_view() =~= prev.push(
                            spec_export_of_forward(e@),
                        ));
                    }
                },
                parse::Forward::Import(im) => {
                    let ghost prev = imports.deep_view();
                    let ci = import_of_forward(im);
                    imports.push(ci);
                    proof {
                        assert(imports.deep_view() =~= prev.push(
                            spec_import_of_forward(im@),
                        ));
                    }
                },
            },
        }
        i = i + 1;
    }
    Ok(Config { temp_dir: None, secrets_dir: None, exports, imports })
}

} // verus!
