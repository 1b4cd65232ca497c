//! Parser for forward expressions such as `"80~mastodon:80,81"` or
//! `"xyz123.onion:9001~9002"`.
//!
//! The grammar, with `~` separating the local from the remote side:
//!
//! ```text
//! forward      := import | export
//! export       := local_tcp [ "~" export_remote ]
//! local_tcp    := [ ipv4 ":" ] port
//! export_remote:= [ alias ":" ] port ("," port)*
//! import       := onion ".onion" [ ":" port ] [ "~" import_local ]
//! import_local := ipv4 ":" port | ipv4 | port
//! alias        := [A-Za-z0-9]+
//! ipv4         := d{1,3} "." d{1,3} "." d{1,3} "." d{1,3}   (each 0..=255)
//! port         := d{2,5}                                    (decimal 0..=65535)
//! ```
//!
//! Each parsing function consumes a prefix of its input and returns the
//! remaining suffix together with the parsed value, or a trace of error
//! frames. Every function's behaviour is pinned exactly by a spec-level
//! mirror of the grammar.

use vstd::prelude::*;

verus! {

/// A named section of the grammar, used in error traces.
#[derive(Debug, PartialEq, Eq, Structural, Clone, Copy)]
pub enum Section {
    ForwardExpr,
    ExportFwd,
    ExportRemote,
    LocalTcp,
    ImportFwd,
    ImportRemote,
    OnionName,
    ImportLocal,
    ImportLocalHostPort,
    ImportLocalHostOnly,
    PortList,
    PortNum,
    IpNumber,
    Ipv4,
}

impl Section {
    /// The section's name as it appears in rendered error messages.
    pub open spec fn spec_name(self) -> Seq<char> {
        match self {
            Section::ForwardExpr => "forward"@,
            Section::ExportFwd => "export forward"@,
            Section::ExportRemote => "export remote addr"@,
            Section::LocalTcp => "local tcp addr"@,
            Section::ImportFwd => "import forward"@,
            Section::ImportRemote => "import remote addr"@,
            Section::OnionName => "onion"@,
            Section::ImportLocal => "import local addr"@,
            Section::ImportLocalHostPort => "import local addr host:port"@,
            Section::ImportLocalHostOnly => "import local addr host only"@,
            Section::PortList => "ports"@,
            Section::PortNum => "port"@,
            Section::IpNumber => "ip number"@,
            Section::Ipv4 => "ip"@,
        }
    }

    /// Returns the section's name.
    pub fn name(self) -> (r: &'static str)
        ensures
            r@ == self.spec_name(),
    {
        match self {
            Section::ForwardExpr => "forward",
            Section::ExportFwd => "export forward",
            Section::ExportRemote => "export remote addr",
            Section::LocalTcp => "local tcp addr",
            Section::ImportFwd => "import forward",
            Section::ImportRemote => "import remote addr",
            Section::OnionName => "onion",
            Section::ImportLocal => "import local addr",
            Section::ImportLocalHostPort => "import local addr host:port",
            Section::ImportLocalHostOnly => "import local addr host only",
            Section::PortList => "ports",
            Section::PortNum => "port",
            Section::IpNumber => "ip number",
            Section::Ipv4 => "ip",
        }
    }
}

/// What failed at one point of an error trace.
#[derive(Debug, PartialEq, Eq, Structural, Clone, Copy)]
pub enum FrameKind {
    OneOf,
    ManyMN,
    Eof,
    Alt,
    Tag,
    AlphaNumeric,
    Count,
    Context(Section),
}

/// One entry of an error trace: the input suffix at which parsing failed,
/// and what failed there.
#[derive(Debug, PartialEq, Eq, Clone)]
pub struct Frame {
    pub at: String,
    pub kind: FrameKind,
}

/// Spec-level form of a [`Frame`].
pub struct SpecFrame {
    pub at: Seq<char>,
    pub kind: FrameKind,
}

impl View for Frame {
    type V = SpecFrame;

    open spec fn view(&self) -> SpecFrame {
        SpecFrame { at: self.at@, kind: self.kind }
    }
}

impl DeepView for Frame {
    type V = SpecFrame;

    open spec fn deep_view(&self) -> SpecFrame {
        self.view()
    }
}

/// The numeric value of a decimal digit, or none for any other character.
pub open spec fn spec_digit_value(c: char) -> Option<u8> {
    if '0' <= c && c <= '9' {
        Some((c as u8 - '0' as u8) as u8)
    } else {
        None
    }
}

/// How many leading characters of `s` are decimal digits, capped at `cap`.
pub open spec fn digit_prefix_len(s: Seq<char>, cap: nat) -> nat
    decreases cap,
{
    if cap == 0 || s.len() == 0 || spec_digit_value(s[0]) is None {
        0
    } else {
        1 + digit_prefix_len(s.drop_first(), (cap - 1) as nat)
    }
}

/// The value of a sequence of decimal digits, most significant first.
pub open spec fn digits_val(s: Seq<char>) -> nat
    decreases s.len(),
{
    if s.len() == 0 {
        0
    } else {
        digits_val(s.drop_last()) * 10 + match spec_digit_value(s.last()) {
            Some(d) => d as nat,
            None => 0,
        }
    }
}

pub open spec fn pow10(n: nat) -> nat
    decreases n,
{
    if n == 0 {
        1
    } else {
        10 * pow10((n - 1) as nat)
    }
}

pub proof fn lemma_digits_val_bound(s: Seq<char>)
    ensures
        digits_val(s) < pow10(s.len()),
    decreases s.len(),
{
    if s.len() > 0 {
        lemma_digits_val_bound(s.drop_last());
    }
}

pub proof fn lemma_digit_prefix_len_from_scan(s: Seq<char>, cap: nat, k: nat)
    requires
        k <= cap,
        k <= s.len(),
        forall|j: int| 0 <= j < k ==> spec_digit_value(s[j]) is Some,
        k < cap && k < s.len() ==> spec_digit_value(s[k as int]) is None,
    ensures
        digit_prefix_len(s, cap) == k,
    decreases k,
{
    if k == 0 {
    } else {
        assert(spec_digit_value(s[0]) is Some);
        let t = s.drop_first();
        assert(forall|j: int| 0 <= j < k - 1 ==> s.drop_first()[j] == s[j + 1]);
        lemma_digit_prefix_len_from_scan(t, (cap - 1) as nat, (k - 1) as nat);
    }
}

/// The grammar's result type at the spec level: the remaining input and the
/// parsed value, or an error trace.
pub type SpecRes<T> = Result<(Seq<char>, T), Seq<SpecFrame>>;

/// Takes between `n` and `m` leading decimal digits, greedily; fewer than
/// `n` digits leave a trace of the failed digit match and the failed repeat.
pub open spec fn spec_n_to_m_digits(s: Seq<char>, n: nat, m: nat) -> SpecRes<Seq<char>> {
    let k = digit_prefix_len(s, m);
    if k >= n {
        Ok((s.skip(k as int), s.take(k as int)))
    } else {
        Err(
            seq![
                SpecFrame { at: s.skip(k as int), kind: FrameKind::OneOf },
                SpecFrame { at: s.skip(k as int), kind: FrameKind::ManyMN },
            ],
        )
    }
}

/// A run of decimal digits read as a number in a given range, with the
/// section recorded on a failed digit match; a value out of range is an
/// error with an empty trace.
pub open spec fn spec_number(s: Seq<char>, n: nat, m: nat, max: nat, sec: Section) -> SpecRes<
    nat,
> {
    match spec_n_to_m_digits(s, n, m) {
        Ok((rest, ds)) => {
            if digits_val(ds) <= max {
                Ok((rest, digits_val(ds)))
            } else {
                Err(Seq::empty())
            }
        },
        Err(fs) => Err(fs.push(SpecFrame { at: s, kind: FrameKind::Context(sec) })),
    }
}

/// A port: two to five digits valued up to 65535.
pub open spec fn spec_port(s: Seq<char>) -> SpecRes<u16> {
    match spec_number(s, 2, 5, 0xffff, Section::PortNum) {
        Ok((rest, v)) => Ok((rest, v as u16)),
        Err(fs) => Err(fs),
    }
}

/// One octet of an IPv4 address: one to three digits valued up to 255.
pub open spec fn spec_ip_num(s: Seq<char>) -> SpecRes<u8> {
    match spec_number(s, 1, 3, 0xff, Section::IpNumber) {
        Ok((rest, v)) => Ok((rest, v as u8)),
        Err(fs) => Err(fs),
    }
}

/// Scans up to `m` leading digits of `input` starting at nothing consumed,
/// returning how many digits were found (capped at `m`) and their value.
fn scan_digits(input: &str, m: usize) -> (r: (usize, u32))
    requires
        m <= 5,
    ensures
        r.0 == digit_prefix_len(input@, m as nat),
        r.1 == digits_val(input@.take(r.0 as int)),
        r.0 <= m,
        r.0 <= input@.len(),
{
    let len = input.unicode_len();
    let mut k: usize = 0;
    let mut val: u32 = 0;
    loop
        invariant
            k <= m,
            k <= len,
            len == input@.len(),
            m <= 5,
            forall|j: int| 0 <= j < k ==> spec_digit_value(input@[j]) is Some,
            val == digits_val(input@.take(k as int)),
            val < pow10(k as nat),
        decreases m - k,
    {
        if k == m || k == len {
            proof {
                lemma_digit_prefix_len_from_scan(input@, m as nat, k as nat);
            }
            return (k, val);
        }
        let c = input.get_char(k);
        match digit_value(c) {
            Some(d) => {
                proof {
                    reveal_with_fuel(pow10, 6);
                    assert(input@.take(k + 1).drop_last() =~= input@.take(k as int));
                    assert(input@.take(k + 1).last() == input@[k as int]);
                    lemma_pow10_mono(k as nat, 4);
                    assert(val < 10000);
                }
                val = val * 10 + (d as u32);
                k = k + 1;
            },
            None => {
                proof {
                    lemma_digit_prefix_len_from_scan(input@, m as nat, k as nat);
                }
                return (k, val);
            },
        }
    }
}

pub proof fn lemma_pow10_mono(a: nat, b: nat)
    requires
        a <= b,
    ensures
        pow10(a) <= pow10(b),
    decreases b,
{
    if a < b {
        lemma_pow10_mono(a, (b - 1) as nat);
    }
}

/// Returns the numeric value of an ASCII decimal digit.
pub fn digit_value(c: char) -> (r: Option<u8>)
    ensures
        r == spec_digit_value(c),
{
    if '0' <= c && c <= '9' {
        Some(c as u8 - '0' as u8)
    } else {
        None
    }
}

/// Splits `input` at `mid` characters, returning the suffix.
fn suffix_from<'a>(input: &'a str, mid: usize) -> (r: &'a str)
    requires
        mid <= input@.len(),
    ensures
        r@ == input@.skip(mid as int),
{
    let len = input.unicode_len();
    let r = input.substring_char(mid, len);
    proof {
        assert(r@ =~= input@.skip(mid as int));
    }
    r
}

/// Reads a number of `n` to `m` digits valued at most `max`.
fn number<'a>(input: &'a str, n: usize, m: usize, max: u32, sec: Section) -> (r: Result<
    (&'a str, u32),
    Vec<Frame>,
>)
    requires
        1 <= n <= m <= 5,
        max < 0x18000,
    ensures
        match spec_number(input@, n as nat, m as nat, max as nat, sec) {
            Ok((rest, v)) => r matches Ok(p) && p.0@ == rest && p.1 == v,
            Err(fs) => r matches Err(e) && e.deep_view() == fs,
        },
{
    let (k, val) = scan_digits(input, m);
    if k >= n {
        proof {
            lemma_digits_val_bound(input@.take(k as int));
            lemma_pow10_mono(k as nat, 5);
        }
        if val <= max {
            let rest = suffix_from(input, k);
            Ok((rest, val))
        } else {
            Err(Vec::new())
        }
    } else {
        let at = suffix_from(input, k);
        let at1 = String::from_str(at);
        let at2 = String::from_str(at);
        let whole = String::from_str(input);
        let mut fs: Vec<Frame> = Vec::new();
        fs.push(Frame { at: at1, kind: FrameKind::OneOf });
        fs.push(Frame { at: at2, kind: FrameKind::ManyMN });
        fs.push(Frame { at: whole, kind: FrameKind::Context(sec) });
        proof {
            let want = spec_number(input@, n as nat, m as nat, max as nat, sec)->Err_0;
            assert(fs.deep_view() =~= want);
        }
        Err(fs)
    }
}

/// Parses a port number of two to five digits.
pub fn port<'a>(input: &'a str) -> (r: Result<(&'a str, u16), Vec<Frame>>)
    ensures
        match spec_port(input@) {
            Ok((rest, v)) => r matches Ok(p) && p.0@ == rest && p.1 == v,
            Err(fs) => r matches Err(e) && e.deep_view() == fs,
        },
{
    match number(input, 2, 5, 0xffff, Section::PortNum) {
        Ok((rest, v)) => Ok((rest, v as u16)),
        Err(fs) => Err(fs),
    }
}

/// Parses one octet of an IPv4 address: one to three digits up to 255.
pub fn ip_num<'a>(input: &'a str) -> (r: Result<(&'a str, u8), Vec<Frame>>)
    ensures
        match spec_ip_num(input@) {
            Ok((rest, v)) => r matches Ok(p) && p.0@ == rest && p.1 == v,
            Err(fs) => r matches Err(e) && e.deep_view() == fs,
        },
{
    match number(input, 1, 3, 0xff, Section::IpNumber) {
        Ok((rest, v)) => Ok((rest, v as u8)),
        Err(fs) => Err(fs),
    }
}

/// True for ASCII letters and digits, the characters of aliases and onion
/// names in forward expressions.
pub open spec fn is_alnum_char(c: char) -> bool {
    ('0' <= c && c <= '9') || ('a' <= c && c <= 'z') || ('A' <= c && c <= 'Z')
}

/// How many leading characters of `s` are ASCII letters or digits.
pub open spec fn alnum_prefix_len(s: Seq<char>) -> nat
    decreases s.len(),
{
    if s.len() == 0 || !is_alnum_char(s[0]) {
        0
    } else {
        1 + alnum_prefix_len(s.drop_first())
    }
}

proof fn lemma_alnum_prefix_len_from_scan(s: Seq<char>, k: nat)
    requires
        k <= s.len(),
        forall|j: int| 0 <= j < k ==> is_alnum_char(s[j]),
        k < s.len() ==> !is_alnum_char(s[k as int]),
    ensures
        alnum_prefix_len(s) == k,
    decreases k,
{
    if k > 0 {
        let t = s.drop_first();
        assert(forall|j: int| 0 <= j < k - 1 ==> s.drop_first()[j] == s[j + 1]);
        lemma_alnum_prefix_len_from_scan(t, (k - 1) as nat);
    }
}

/// One or more leading ASCII letters or digits.
pub open spec fn spec_alphanumeric1(s: Seq<char>) -> SpecRes<Seq<char>> {
    let k = alnum_prefix_len(s);
    if k >= 1 {
        Ok((s.skip(k as int), s.take(k as int)))
    } else {
        Err(seq![SpecFrame { at: s, kind: FrameKind::AlphaNumeric }])
    }
}

/// A fixed token at the head of the input.
pub open spec fn spec_tag(s: Seq<char>, t: Seq<char>) -> SpecRes<()> {
    if t.len() <= s.len() && s.take(t.len() as int) == t {
        Ok((s.skip(t.len() as int), ()))
    } else {
        Err(seq![SpecFrame { at: s, kind: FrameKind::Tag }])
    }
}

/// Matches `tag` at the head of `input`, returning the rest on success.
fn expect_tag<'a>(input: &'a str, tag: &str) -> (r: Option<&'a str>)
    ensures
        match r {
            Some(rest) => spec_tag(input@, tag@) == Ok::<_, Seq<SpecFrame>>((rest@, ())),
            None => spec_tag(input@, tag@) == Err::<(Seq<char>, ()), _>(
                seq![SpecFrame { at: input@, kind: FrameKind::Tag }],
            ),
        },
{
    let tlen = tag.unicode_len();
    let ilen = input.unicode_len();
    if ilen < tlen {
        return None;
    }
    let mut j: usize = 0;
    while j < tlen
        invariant
            j <= tlen,
            tlen <= ilen,
            ilen == input@.len(),
            tlen == tag@.len(),
            forall|i: int| 0 <= i < j ==> input@[i] == tag@[i],
        decreases tlen - j,
    {
        if input.get_char(j) != tag.get_char(j) {
            proof {
                assert(input@.take(tlen as int)[j as int] != tag@[j as int]);
            }
            return None;
        }
        j = j + 1;
    }
    let rest = suffix_from(input, tlen);
    proof {
        assert(input@.take(tlen as int) =~= tag@);
    }
    Some(rest)
}

/// Counts the leading ASCII letters or digits of `input`.
fn scan_alnum(input: &str) -> (k: usize)
    ensures
        k == alnum_prefix_len(input@),
        k <= input@.len(),
{
    let len = input.unicode_len();
    let mut j: usize = 0;
    loop
        invariant
            j <= len,
            len == input@.len(),
            forall|i: int| 0 <= i < j ==> is_alnum_char(input@[i]),
        decreases len - j,
    {
        if j == len {
            proof {
                lemma_alnum_prefix_len_from_scan(input@, j as nat);
            }
            return j;
        }
        let c = input.get_char(j);
        if ('0' <= c && c <= '9') || ('a' <= c && c <= 'z') || ('A' <= c && c <= 'Z') {
            j = j + 1;
        } else {
            proof {
                lemma_alnum_prefix_len_from_scan(input@, j as nat);
            }
            return j;
        }
    }
}

/// Takes one or more leading ASCII letters or digits.
fn alphanumeric1<'a>(input: &'a str) -> (r: Result<(&'a str, String), Vec<Frame>>)
    ensures
        match spec_alphanumeric1(input@) {
            Ok((rest, v)) => r matches Ok(p) && p.0@ == rest && p.1@ == v,
            Err(fs) => r matches Err(e) && e.deep_view() == fs,
        },
{
    let k = scan_alnum(input);
    if k == 0 {
        let mut fs: Vec<Frame> = Vec::new();
        fs.push(Frame { at: String::from_str(input), kind: FrameKind::AlphaNumeric });
        proof {
            assert(fs.deep_view() =~= seq![
                SpecFrame { at: input@, kind: FrameKind::AlphaNumeric },
            ]);
        }
        Err(fs)
    } else {
        let name = String::from_str(input.substring_char(0, k));
        let rest = suffix_from(input, k);
        proof {
            assert(name@ =~= input@.take(k as int));
        }
        Ok((rest, name))
    }
}

/// A host in a forward expression: a name, or an IPv4 address as four
/// octets.
#[derive(Debug, PartialEq, Eq)]
pub enum Host {
    HOST(String),
    IP4([u8; 4]),
}

/// Spec-level form of a [`Host`].
pub enum HostView {
    Name(Seq<char>),
    Ip4(Seq<u8>),
}

impl View for Host {
    type V = HostView;

    open spec fn view(&self) -> HostView {
        match self {
            Host::HOST(s) => HostView::Name(s@),
            Host::IP4(a) => HostView::Ip4(a@),
        }
    }
}

/// The local, plaintext-TCP side of an export: an optional host (defaulting
/// to localhost) and a port.
#[derive(Debug, PartialEq, Eq)]
pub struct ExportLocalTCPAddr {
    pub host: Option<Host>,
    pub port: u16,
}

/// Spec-level form of an [`ExportLocalTCPAddr`].
pub struct ExportLocalTcpView {
    pub host: Option<HostView>,
    pub port: u16,
}

impl View for ExportLocalTCPAddr {
    type V = ExportLocalTcpView;

    open spec fn view(&self) -> ExportLocalTcpView {
        ExportLocalTcpView {
            host: match self.host {
                Some(h) => Some(h@),
                None => None,
            },
            port: self.port,
        }
    }
}

/// The local side of an export.
#[derive(Debug, PartialEq, Eq)]
pub enum ExportLocalAddr {
    TCP(ExportLocalTCPAddr),
}

/// Spec-level form of an [`ExportLocalAddr`].
pub enum ExportLocalAddrView {
    Tcp(ExportLocalTcpView),
}

impl View for ExportLocalAddr {
    type V = ExportLocalAddrView;

    open spec fn view(&self) -> ExportLocalAddrView {
        match self {
            ExportLocalAddr::TCP(a) => ExportLocalAddrView::Tcp(a@),
        }
    }
}

/// The onion side of an export: an optional service alias and the onion
/// ports to publish.
#[derive(Debug, PartialEq, Eq)]
pub struct ExportRemoteAddr {
    pub onion_alias: Option<String>,
    pub ports: Vec<u16>,
}

/// Spec-level form of an [`ExportRemoteAddr`].
pub struct ExportRemoteView {
    pub onion_alias: Option<Seq<char>>,
    pub ports: Seq<u16>,
}

impl View for ExportRemoteAddr {
    type V = ExportRemoteView;

    open spec fn view(&self) -> ExportRemoteView {
        ExportRemoteView {
            onion_alias: match self.onion_alias {
                Some(ref a) => Some(a@),
                None => None,
            },
            ports: self.ports@,
        }
    }
}

/// A parsed export forward.
#[derive(Debug, PartialEq, Eq)]
pub struct ExportForward {
    pub local: ExportLocalAddr,
    pub remote: Option<ExportRemoteAddr>,
}

/// Spec-level form of an [`ExportForward`].
pub struct ExportForwardView {
    pub local: ExportLocalAddrView,
    pub remote: Option<ExportRemoteView>,
}

impl View for ExportForward {
    type V = ExportForwardView;

    open spec fn view(&self) -> ExportForwardView {
        ExportForwardView {
            local: self.local@,
            remote: match self.remote {
                Some(ref r) => Some(r@),
                None => None,
            },
        }
    }
}

/// The remote side of an import: an onion name and an optional onion port.
#[derive(Debug, PartialEq, Eq)]
pub struct ImportRemoteAddr {
    pub onion: String,
    pub port: Option<u16>,
}

/// Spec-level form of an [`ImportRemoteAddr`].
pub struct ImportRemoteView {
    pub onion: Seq<char>,
    pub port: Option<u16>,
}

impl View for ImportRemoteAddr {
    type V = ImportRemoteView;

    open spec fn view(&self) -> ImportRemoteView {
        ImportRemoteView { onion: self.onion@, port: self.port }
    }
}

/// The local, TCP side of an import; both parts are optional.
#[derive(Debug, PartialEq, Eq)]
pub struct ImportLocalTCPAddr {
    pub host: Option<Host>,
    pub port: Option<u16>,
}

/// Spec-level form of an [`ImportLocalTCPAddr`].
pub struct ImportLocalTcpView {
    pub host: Option<HostView>,
    pub port: Option<u16>,
}

impl View for ImportLocalTCPAddr {
    type V = ImportLocalTcpView;

    open spec fn view(&self) -> ImportLocalTcpView {
        ImportLocalTcpView {
            host: match self.host {
                Some(h) => Some(h@),
                None => None,
            },
            port: self.port,
        }
    }
}

/// The local side of an import.
#[derive(Debug, PartialEq, Eq)]
pub enum ImportLocalAddr {
    TCP(ImportLocalTCPAddr),
}

/// Spec-level form of an [`ImportLocalAddr`].
pub enum ImportLocalAddrView {
    Tcp(ImportLocalTcpView),
}

impl View for ImportLocalAddr {
    type V = ImportLocalAddrView;

    open spec fn view(&self) -> ImportLocalAddrView {
        match self {
            ImportLocalAddr::TCP(a) => ImportLocalAddrView::Tcp(a@),
        }
    }
}

/// A parsed import forward.
#[derive(Debug, PartialEq, Eq)]
pub struct ImportForward {
    pub remote: ImportRemoteAddr,
    pub local: Option<ImportLocalAddr>,
}

/// Spec-level form of an [`ImportForward`].
pub struct ImportForwardView {
    pub remote: ImportRemoteView,
    pub local: Option<ImportLocalAddrView>,
}

impl View for ImportForward {
    type V = ImportForwardView;

    open spec fn view(&self) -> ImportForwardView {
        ImportForwardView {
            remote: self.remote@,
            local: match self.local {
                Some(ref l) => Some(l@),
                None => None,
            },
        }
    }
}

/// A parsed forward expression: an export or an import.
#[derive(Debug, PartialEq, Eq)]
pub enum Forward {
    Export(ExportForward),
    Import(ImportForward),
}

/// Spec-level form of a [`Forward`].
pub enum ForwardView {
    Export(ExportForwardView),
    Import(ImportForwardView),
}

impl View for Forward {
    type V = ForwardView;

    open spec fn view(&self) -> ForwardView {
        match self {
            Forward::Export(e) => ForwardView::Export(e@),
            Forward::Import(i) => ForwardView::Import(i@),
        }
    }
}

/// Appends one frame, recorded at `input`, to an error trace.
fn push_frame(fs: Vec<Frame>, input: &str, kind: FrameKind) -> (r: Vec<Frame>)
    ensures
        r.deep_view() == fs.deep_view().push(SpecFrame { at: input@, kind }),
{
    let ghost orig = fs.deep_view();
    let mut fs2 = fs;
    fs2.push(Frame { at: String::from_str(input), kind });
    proof {
        assert(fs2.deep_view() =~= orig.push(SpecFrame { at: input@, kind }));
    }
    fs2
}

pub proof fn lemma_dpl_le_len(s: Seq<char>, cap: nat)
    ensures
        digit_prefix_len(s, cap) <= s.len(),
        digit_prefix_len(s, cap) <= cap,
    decreases cap,
{
    if cap > 0 && s.len() > 0 && spec_digit_value(s[0]) is Some {
        lemma_dpl_le_len(s.drop_first(), (cap - 1) as nat);
    }
}

/// One octet followed by a dot.
pub open spec fn spec_ip_elem(s: Seq<char>) -> SpecRes<u8> {
    match spec_ip_num(s) {
        Err(fs) => Err(fs),
        Ok((r1, v)) => match spec_tag(r1, seq!['.']) {
            Err(fs) => Err(fs),
            Ok((r2, _)) => Ok((r2, v)),
        },
    }
}

/// An IPv4 address: three dot-terminated octets and a final octet.
pub open spec fn spec_ip(s: Seq<char>) -> SpecRes<HostView> {
    match spec_ip_elem(s) {
        Err(fs) => Err(
            fs.push(SpecFrame { at: s, kind: FrameKind::Count }).push(
                SpecFrame { at: s, kind: FrameKind::Context(Section::Ipv4) },
            ),
        ),
        Ok((r1, a)) => match spec_ip_elem(r1) {
            Err(fs) => Err(
                fs.push(SpecFrame { at: s, kind: FrameKind::Count }).push(
                    SpecFrame { at: s, kind: FrameKind::Context(Section::Ipv4) },
                ),
            ),
            Ok((r2, b)) => match spec_ip_elem(r2) {
                Err(fs) => Err(
                    fs.push(SpecFrame { at: s, kind: FrameKind::Count }).push(
                        SpecFrame { at: s, kind: FrameKind::Context(Section::Ipv4) },
                    ),
                ),
                Ok((r3, c)) => match spec_ip_num(r3) {
                    Err(fs) => Err(
                        fs.push(SpecFrame { at: s, kind: FrameKind::Context(Section::Ipv4) }),
                    ),
                    Ok((r4, d)) => Ok((r4, HostView::Ip4(seq![a, b, c, d]))),
                },
            },
        },
    }
}

/// Parses one octet followed by a dot.
fn ip_elem<'a>(input: &'a str) -> (r: Result<(&'a str, u8), Vec<Frame>>)
    ensures
        match spec_ip_elem(input@) {
            Ok((rest, v)) => r matches Ok(p) && p.0@ == rest && p.1 == v,
            Err(fs) => r matches Err(e) && e.deep_view() == fs,
        },
{
    proof {
        reveal_strlit(".");
        assert("."@ =~= seq!['.']);
    }
    match ip_num(input) {
        Err(fs) => Err(fs),
        Ok((r1, v)) => match expect_tag(r1, ".") {
            Some(r2) => Ok((r2, v)),
            None => {
                let fs: Vec<Frame> = Vec::new();
                let fs = push_frame(fs, r1, FrameKind::Tag);
                proof {
                    assert(fs.deep_view() =~= seq![SpecFrame { at: r1@, kind: FrameKind::Tag }]);
                }
                Err(fs)
            },
        },
    }
}

/// Parses an IPv4 address of four octets.
pub fn ip<'a>(input: &'a str) -> (r: Result<(&'a str, Host), Vec<Frame>>)
    ensures
        match spec_ip(input@) {
            Ok((rest, v)) => r matches Ok(p) && p.0@ == rest && p.1@ == v,
            Err(fs) => r matches Err(e) && e.deep_view() == fs,
        },
{
    let r1 = match ip_elem(input) {
        Ok(p) => p,
        Err(fs) => {
            let fs = push_frame(fs, input, FrameKind::Count);
            return Err(push_frame(fs, input, FrameKind::Context(Section::Ipv4)));
        },
    };
    let r2 = match ip_elem(r1.0) {
        Ok(p) => p,
        Err(fs) => {
            let fs = push_frame(fs, input, FrameKind::Count);
            return Err(push_frame(fs, input, FrameKind::Context(Section::Ipv4)));
        },
    };
    let r3 = match ip_elem(r2.0) {
        Ok(p) => p,
        Err(fs) => {
            let fs = push_frame(fs, input, FrameKind::Count);
            return Err(push_frame(fs, input, FrameKind::Context(Section::Ipv4)));
        },
    };
    match ip_num(r3.0) {
        Ok((r4, d)) => {
            let host = Host::IP4([r1.1, r2.1, r3.1, d]);
            proof {
                assert(host@->Ip4_0 =~= seq![r1.1, r2.1, r3.1, d]);
            }
            Ok((r4, host))
        },
        Err(fs) => Err(push_frame(fs, input, FrameKind::Context(Section::Ipv4))),
    }
}

/// The optional `ipv4 ":"` prefix of a local TCP address; on any failure
/// nothing is consumed and there is no host.
pub open spec fn spec_opt_host(s: Seq<char>) -> (Seq<char>, Option<HostView>) {
    match spec_ip(s) {
        Ok((r1, h)) => match spec_tag(r1, seq![':']) {
            Ok((r2, _)) => (r2, Some(h)),
            Err(_) => (s, None),
        },
        Err(_) => (s, None),
    }
}

/// A local TCP address: an optional `ipv4 ":"` prefix and a port.
pub open spec fn spec_local_tcp_addr(s: Seq<char>) -> SpecRes<ExportLocalTcpView> {
    let (r1, host) = spec_opt_host(s);
    match spec_port(r1) {
        Err(fs) => Err(fs.push(SpecFrame { at: s, kind: FrameKind::Context(Section::LocalTcp) })),
        Ok((r2, p)) => Ok((r2, ExportLocalTcpView { host, port: p })),
    }
}

/// Parses a local TCP address: an optional `ipv4 ":"` prefix and a port.
pub fn local_tcp_addr<'a>(input: &'a str) -> (r: Result<(&'a str, ExportLocalTCPAddr), Vec<Frame>>)
    ensures
        match spec_local_tcp_addr(input@) {
            Ok((rest, v)) => r matches Ok(p) && p.0@ == rest && p.1@ == v,
            Err(fs) => r matches Err(e) && e.deep_view() == fs,
        },
{
    proof {
        reveal_strlit(":");
        assert(":"@ =~= seq![':']);
    }
    let (rest1, host) = match ip(input) {
        Ok((r1, h)) => match expect_tag(r1, ":") {
            Some(r2) => (r2, Some(h)),
            None => (input, None),
        },
        Err(_) => (input, None),
    };
    match port(rest1) {
        Err(fs) => Err(push_frame(fs, input, FrameKind::Context(Section::LocalTcp))),
        Ok((r2, p)) => Ok((r2, ExportLocalTCPAddr { host, port: p })),
    }
}

/// Further `"," port` elements after the first port; stops without
/// consuming a trailing separator that is not followed by a port.
pub open spec fn spec_ports_rest(s: Seq<char>, acc: Seq<u16>) -> (Seq<char>, Seq<u16>)
    decreases s.len(),
    via spec_ports_rest_dec
{
    match spec_tag(s, seq![',']) {
        Err(_) => (s, acc),
        Ok((r1, _)) => match spec_port(r1) {
            Err(_) => (s, acc),
            Ok((r2, v)) => spec_ports_rest(r2, acc.push(v)),
        },
    }
}

#[via_fn]
proof fn spec_ports_rest_dec(s: Seq<char>, acc: Seq<u16>) {
    if spec_tag(s, seq![',']) is Ok {
        let r1 = spec_tag(s, seq![','])->Ok_0.0;
        lemma_dpl_le_len(r1, 5);
    }
}

/// A comma-separated list of one or more ports.
pub open spec fn spec_ports(s: Seq<char>) -> SpecRes<Seq<u16>> {
    match spec_port(s) {
        Err(fs) => Err(fs.push(SpecFrame { at: s, kind: FrameKind::Context(Section::PortList) })),
        Ok((r, v)) => {
            let (r2, ps) = spec_ports_rest(r, seq![v]);
            Ok((r2, ps))
        },
    }
}

/// Parses a comma-separated list of one or more ports.
fn ports<'a>(input: &'a str) -> (r: Result<(&'a str, Vec<u16>), Vec<Frame>>)
    ensures
        match spec_ports(input@) {
            Ok((rest, v)) => r matches Ok(p) && p.0@ == rest && p.1@ == v,
            Err(fs) => r matches Err(e) && e.deep_view() == fs,
        },
{
    proof {
        reveal_strlit(",");
        assert(","@ =~= seq![',']);
    }
    match port(input) {
        Err(fs) => Err(push_frame(fs, input, FrameKind::Context(Section::PortList))),
        Ok((first_rest, v)) => {
            let mut acc: Vec<u16> = Vec::new();
            acc.push(v);
            let mut cur = first_rest;
            proof {
                assert(acc@ =~= seq![v]);
            }
            loop
                invariant
                    spec_ports(input@) == Ok::<(Seq<char>, Seq<u16>), Seq<SpecFrame>>(
                        spec_ports_rest(first_rest@, seq![v]),
                    ),
                    spec_ports_rest(first_rest@, seq![v]) == spec_ports_rest(cur@, acc@),
                decreases cur@.len(),
            {
                proof {
                    reveal_strlit(",");
                    assert(","@ =~= seq![',']);
                }
                match expect_tag(cur, ",") {
                    None => {
                        assert(spec_ports_rest(cur@, acc@) == (cur@, acc@));
                        return Ok((cur, acc));
                    },
                    Some(r1) => {
                        match port(r1) {
                            Err(_) => {
                                assert(spec_ports_rest(cur@, acc@) == (cur@, acc@));
                                return Ok((cur, acc));
                            },
                            Ok((r2, w)) => {
                                proof {
                                    lemma_dpl_le_len(r1@, 5);
                                    assert(spec_ports_rest(cur@, acc@) == spec_ports_rest(
                                        r2@,
                                        acc@.push(w),
                                    ));
                                }
                                acc.push(w);
                                cur = r2;
                            },
                        }
                    },
                }
            }
        },
    }
}

/// The optional `alias ":"` prefix of an export's remote side.
pub open spec fn spec_opt_alias(s: Seq<char>) -> (Seq<char>, Option<Seq<char>>) {
    match spec_alphanumeric1(s) {
        Ok((r1, a)) => match spec_tag(r1, seq![':']) {
            Ok((r2, _)) => (r2, Some(a)),
            Err(_) => (s, None),
        },
        Err(_) => (s, None),
    }
}

/// The remote side of an export: an optional alias and the onion ports.
pub open spec fn spec_export_remote_addr(s: Seq<char>) -> SpecRes<ExportRemoteView> {
    let (r1, alias) = spec_opt_alias(s);
    match spec_ports(r1) {
        Err(fs) => Err(
            fs.push(SpecFrame { at: s, kind: FrameKind::Context(Section::ExportRemote) }),
        ),
        Ok((r2, ps)) => Ok((r2, ExportRemoteView { onion_alias: alias, ports: ps })),
    }
}

/// Parses the remote side of an export.
fn export_remote_addr<'a>(input: &'a str) -> (r: Result<(&'a str, ExportRemoteAddr), Vec<Frame>>)
    ensures
        match spec_export_remote_addr(input@) {
            Ok((rest, v)) => r matches Ok(p) && p.0@ == rest && p.1@ == v,
            Err(fs) => r matches Err(e) && e.deep_view() == fs,
        },
{
    proof {
        reveal_strlit(":");
        assert(":"@ =~= seq![':']);
    }
    let (rest1, alias) = match alphanumeric1(input) {
        Ok((r1, a)) => match expect_tag(r1, ":") {
            Some(r2) => (r2, Some(a)),
            None => (input, None),
        },
        Err(_) => (input, None),
    };
    match ports(rest1) {
        Err(fs) => Err(push_frame(fs, input, FrameKind::Context(Section::ExportRemote))),
        Ok((r2, ps)) => Ok((r2, ExportRemoteAddr { onion_alias: alias, ports: ps })),
    }
}

/// The optional `"~" export_remote` suffix of an export; on any failure
/// nothing is consumed and there is no remote side.
pub open spec fn spec_opt_export_remote(s: Seq<char>) -> (Seq<char>, Option<ExportRemoteView>) {
    match spec_tag(s, seq!['~']) {
        Err(_) => (s, None),
        Ok((r1, _)) => match spec_export_remote_addr(r1) {
            Err(_) => (s, None),
            Ok((r2, er)) => (r2, Some(er)),
        },
    }
}

/// An export forward: a local TCP address and an optional remote side.
pub open spec fn spec_export_forward(s: Seq<char>) -> SpecRes<ForwardView> {
    match spec_local_tcp_addr(s) {
        Err(fs) => Err(
            fs.push(SpecFrame { at: s, kind: FrameKind::Context(Section::ExportFwd) }),
        ),
        Ok((r1, local)) => {
            let (r2, remote) = spec_opt_export_remote(r1);
            Ok(
                (
                    r2,
                    ForwardView::Export(
                        ExportForwardView { local: ExportLocalAddrView::Tcp(local), remote },
                    ),
                ),
            )
        },
    }
}

/// Parses an export forward.
fn export_forward<'a>(input: &'a str) -> (r: Result<(&'a str, Forward), Vec<Frame>>)
    ensures
        match spec_export_forward(input@) {
            Ok((rest, v)) => r matches Ok(p) && p.0@ == rest && p.1@ == v,
            Err(fs) => r matches Err(e) && e.deep_view() == fs,
        },
{
    proof {
        reveal_strlit("~");
        assert("~"@ =~= seq!['~']);
    }
    match local_tcp_addr(input) {
        Err(fs) => Err(push_frame(fs, input, FrameKind::Context(Section::ExportFwd))),
        Ok((r1, local)) => {
            let (r2, remote) = match expect_tag(r1, "~") {
                None => (r1, None),
                Some(ra) => match export_remote_addr(ra) {
                    Err(_) => (r1, None),
                    Ok((rb, er)) => (rb, Some(er)),
                },
            };
            Ok((r2, Forward::Export(ExportForward { local: ExportLocalAddr::TCP(local), remote })))
        },
    }
}

/// The literal `.onion` suffix of an onion name.
pub open spec fn onion_tag() -> Seq<char> {
    seq!['.', 'o', 'n', 'i', 'o', 'n']
}

/// An onion name: letters and digits followed by `.onion`.
pub open spec fn spec_onion(s: Seq<char>) -> SpecRes<Seq<char>> {
    match spec_alphanumeric1(s) {
        Err(fs) => Err(
            fs.push(SpecFrame { at: s, kind: FrameKind::Context(Section::OnionName) }),
        ),
        Ok((r1, name)) => match spec_tag(r1, onion_tag()) {
            Err(fs) => Err(
                fs.push(SpecFrame { at: s, kind: FrameKind::Context(Section::OnionName) }),
            ),
            Ok((r2, _)) => Ok((r2, name)),
        },
    }
}

/// Parses an onion name.
fn onion<'a>(input: &'a str) -> (r: Result<(&'a str, String), Vec<Frame>>)
    ensures
        match spec_onion(input@) {
            Ok((rest, v)) => r matches Ok(p) && p.0@ == rest && p.1@ == v,
            Err(fs) => r matches Err(e) && e.deep_view() == fs,
        },
{
    proof {
        reveal_strlit(".onion");
        assert(".onion"@ =~= onion_tag());
    }
    match alphanumeric1(input) {
        Err(fs) => Err(push_frame(fs, input, FrameKind::Context(Section::OnionName))),
        Ok((r1, name)) => match expect_tag(r1, ".onion") {
            Some(r2) => Ok((r2, name)),
            None => {
                let fs: Vec<Frame> = Vec::new();
                let fs = push_frame(fs, r1, FrameKind::Tag);
                proof {
                    assert(fs.deep_view() =~= seq![SpecFrame { at: r1@, kind: FrameKind::Tag }]);
                }
                Err(push_frame(fs, input, FrameKind::Context(Section::OnionName)))
            },
        },
    }
}

/// The optional `":" port` suffix of an import's remote side.
pub open spec fn spec_opt_port(s: Seq<char>) -> (Seq<char>, Option<u16>) {
    match spec_tag(s, seq![':']) {
        Err(_) => (s, None),
        Ok((r1, _)) => match spec_port(r1) {
            Err(_) => (s, None),
            Ok((r2, v)) => (r2, Some(v)),
        },
    }
}

/// The remote side of an import: an onion name and an optional port.
pub open spec fn spec_import_remote_addr(s: Seq<char>) -> SpecRes<ImportRemoteView> {
    match spec_onion(s) {
        Err(fs) => Err(
            fs.push(SpecFrame { at: s, kind: FrameKind::Context(Section::ImportRemote) }),
        ),
        Ok((r1, name)) => {
            let (r2, p) = spec_opt_port(r1);
            Ok((r2, ImportRemoteView { onion: name, port: p }))
        },
    }
}

/// Parses the remote side of an import.
fn import_remote_addr<'a>(input: &'a str) -> (r: Result<(&'a str, ImportRemoteAddr), Vec<Frame>>)
    ensures
        match spec_import_remote_addr(input@) {
            Ok((rest, v)) => r matches Ok(p) && p.0@ == rest && p.1@ == v,
            Err(fs) => r matches Err(e) && e.deep_view() == fs,
        },
{
    proof {
        reveal_strlit(":");
        assert(":"@ =~= seq![':']);
    }
    match onion(input) {
        Err(fs) => Err(push_frame(fs, input, FrameKind::Context(Section::ImportRemote))),
        Ok((r1, name)) => {
            let (r2, p) = match expect_tag(r1, ":") {
                None => (r1, None),
                Some(ra) => match port(ra) {
                    Err(_) => (r1, None),
                    Ok((rb, v)) => (rb, Some(v)),
                },
            };
            Ok((r2, ImportRemoteAddr { onion: name, port: p }))
        },
    }
}

/// An import's local side given as `ipv4 ":" port`.
pub open spec fn spec_import_local_host_port(s: Seq<char>) -> SpecRes<ImportLocalTcpView> {
    match spec_ip(s) {
        Err(fs) => Err(
            fs.push(SpecFrame { at: s, kind: FrameKind::Context(Section::ImportLocalHostPort) }),
        ),
        Ok((r1, h)) => match spec_tag(r1, seq![':']) {
            Err(fs) => Err(
                fs.push(
                    SpecFrame { at: s, kind: FrameKind::Context(Section::ImportLocalHostPort) },
                ),
            ),
            Ok((r2, _)) => match spec_port(r2) {
                Err(fs) => Err(
                    fs.push(
                        SpecFrame {
                            at: s,
                            kind: FrameKind::Context(Section::ImportLocalHostPort),
                        },
                    ),
                ),
                Ok((r3, p)) => Ok((r3, ImportLocalTcpView { host: Some(h), port: Some(p) })),
            },
        },
    }
}

/// An import's local side given as a bare `ipv4`.
pub open spec fn spec_import_local_host_only(s: Seq<char>) -> SpecRes<ImportLocalTcpView> {
    match spec_ip(s) {
        Err(fs) => Err(
            fs.push(SpecFrame { at: s, kind: FrameKind::Context(Section::ImportLocalHostOnly) }),
        ),
        Ok((r1, h)) => Ok((r1, ImportLocalTcpView { host: Some(h), port: None })),
    }
}

/// An import's local side given as a bare `port`.
pub open spec fn spec_import_local_port_only(s: Seq<char>) -> SpecRes<ImportLocalTcpView> {
    match spec_port(s) {
        Err(fs) => Err(
            fs.push(SpecFrame { at: s, kind: FrameKind::Context(Section::ImportLocalHostOnly) }),
        ),
        Ok((r1, p)) => Ok((r1, ImportLocalTcpView { host: None, port: Some(p) })),
    }
}

/// An import's local side: `ipv4 ":" port`, a bare `ipv4`, or a bare
/// `port`, tried in that order; when all fail, the last attempt's trace is
/// kept.
pub open spec fn spec_import_local_addr(s: Seq<char>) -> SpecRes<ImportLocalAddrView> {
    match spec_import_local_host_port(s) {
        Ok((r, v)) => Ok((r, ImportLocalAddrView::Tcp(v))),
        Err(_) => match spec_import_local_host_only(s) {
            Ok((r, v)) => Ok((r, ImportLocalAddrView::Tcp(v))),
            Err(_) => match spec_import_local_port_only(s) {
                Ok((r, v)) => Ok((r, ImportLocalAddrView::Tcp(v))),
                Err(fs) => Err(
                    fs.push(SpecFrame { at: s, kind: FrameKind::Alt }).push(
                        SpecFrame { at: s, kind: FrameKind::Context(Section::ImportLocal) },
                    ),
                ),
            },
        },
    }
}

/// Parses an import's local side.
fn import_local_addr<'a>(input: &'a str) -> (r: Result<(&'a str, ImportLocalAddr), Vec<Frame>>)
    ensures
        match spec_import_local_addr(input@) {
            Ok((rest, v)) => r matches Ok(p) && p.0@ == rest && p.1@ == v,
            Err(fs) => r matches Err(e) && e.deep_view() == fs,
        },
{
    proof {
        reveal_strlit(":");
        assert(":"@ =~= seq![':']);
    }
    let hp = match ip(input) {
        Err(fs) => Err(push_frame(fs, input, FrameKind::Context(Section::ImportLocalHostPort))),
        Ok((r1, h)) => match expect_tag(r1, ":") {
            None => {
                let fs: Vec<Frame> = Vec::new();
                let fs = push_frame(fs, r1, FrameKind::Tag);
                proof {
                    assert(fs.deep_view() =~= seq![SpecFrame { at: r1@, kind: FrameKind::Tag }]);
                }
                Err(push_frame(fs, input, FrameKind::Context(Section::ImportLocalHostPort)))
            },
            Some(r2) => match port(r2) {
                Err(fs) => Err(
                    push_frame(fs, input, FrameKind::Context(Section::ImportLocalHostPort)),
                ),
                Ok((r3, p)) => Ok(
                    (r3, ImportLocalTCPAddr { host: Some(h), port: Some(p) }),
                ),
            },
        },
    };
    match hp {
        Ok((r, v)) => Ok((r, ImportLocalAddr::TCP(v))),
        Err(_) => match ip(input) {
            Ok((r1, h)) => Ok((r1, ImportLocalAddr::TCP(ImportLocalTCPAddr { host: Some(h), port: None }))),
            Err(_) => match port(input) {
                Ok((r1, p)) => Ok(
                    (r1, ImportLocalAddr::TCP(ImportLocalTCPAddr { host: None, port: Some(p) })),
                ),
                Err(fs) => {
                    let fs = push_frame(fs, input, FrameKind::Context(Section::ImportLocalHostOnly));
                    let fs = push_frame(fs, input, FrameKind::Alt);
                    Err(push_frame(fs, input, FrameKind::Context(Section::ImportLocal)))
                },
            },
        },
    }
}

/// The optional `"~" import_local` suffix of an import; on any failure
/// nothing is consumed and there is no local side.
pub open spec fn spec_opt_import_local(s: Seq<char>) -> (Seq<char>, Option<ImportLocalAddrView>) {
    match spec_tag(s, seq!['~']) {
        Err(_) => (s, None),
        Ok((r1, _)) => match spec_import_local_addr(r1) {
            Err(_) => (s, None),
            Ok((r2, v)) => (r2, Some(v)),
        },
    }
}

/// An import forward: a remote onion address and an optional local side.
pub open spec fn spec_import_forward(s: Seq<char>) -> SpecRes<ForwardView> {
    match spec_import_remote_addr(s) {
        Err(fs) => Err(
            fs.push(SpecFrame { at: s, kind: FrameKind::Context(Section::ImportFwd) }),
        ),
        Ok((r1, rem)) => {
            let (r2, loc) = spec_opt_import_local(r1);
            Ok((r2, ForwardView::Import(ImportForwardView { remote: rem, local: loc })))
        },
    }
}

/// Parses an import forward.
fn import_forward<'a>(input: &'a str) -> (r: Result<(&'a str, Forward), Vec<Frame>>)
    ensures
        match spec_import_forward(input@) {
            Ok((rest, v)) => r matches Ok(p) && p.0@ == rest && p.1@ == v,
            Err(fs) => r matches Err(e) && e.deep_view() == fs,
        },
{
    proof {
        reveal_strlit("~");
        assert("~"@ =~= seq!['~']);
    }
    match import_remote_addr(input) {
        Err(fs) => Err(push_frame(fs, input, FrameKind::Context(Section::ImportFwd))),
        Ok((r1, rem)) => {
            let (r2, loc) = match expect_tag(r1, "~") {
                None => (r1, None),
                Some(ra) => match import_local_addr(ra) {
                    Err(_) => (r1, None),
                    Ok((rb, v)) => (rb, Some(v)),
                },
            };
            Ok((r2, Forward::Import(ImportForward { remote: rem, local: loc })))
        },
    }
}

/// A whole forward expression: an import or an export, tried in that order,
/// with nothing allowed to follow. When both alternatives fail, the
/// export's trace is kept.
pub open spec fn spec_forward(s: Seq<char>) -> SpecRes<ForwardView> {
    let alt_res: SpecRes<ForwardView> = match spec_import_forward(s) {
        Ok(p) => Ok(p),
        Err(_) => match spec_export_forward(s) {
            Ok(p) => Ok(p),
            Err(fs) => Err(fs.push(SpecFrame { at: s, kind: FrameKind::Alt })),
        },
    };
    match alt_res {
        Err(fs) => Err(
            fs.push(SpecFrame { at: s, kind: FrameKind::Context(Section::ForwardExpr) }),
        ),
        Ok((r, f)) => {
            if r.len() == 0 {
                Ok((r, f))
            } else {
                Err(
                    seq![
                        SpecFrame { at: r, kind: FrameKind::Eof },
                        SpecFrame { at: s, kind: FrameKind::Context(Section::ForwardExpr) },
                    ],
                )
            }
        },
    }
}

/// Parses a whole forward expression; the input must be consumed entirely.
pub fn forward<'a>(input: &'a str) -> (r: Result<(&'a str, Forward), Vec<Frame>>)
    ensures
        match spec_forward(input@) {
            Ok((rest, v)) => r matches Ok(p) && p.0@ == rest && p.1@ == v,
            Err(fs) => r matches Err(e) && e.deep_view() == fs,
        },
{
    let alt_res = match import_forward(input) {
        Ok(p) => Ok(p),
        Err(_) => match export_forward(input) {
            Ok(p) => Ok(p),
            Err(fs) => Err(push_frame(fs, input, FrameKind::Alt)),
        },
    };
    match alt_res {
        Err(fs) => Err(push_frame(fs, input, FrameKind::Context(Section::ForwardExpr))),
        Ok((r, f)) => {
            if r.unicode_len() == 0 {
                Ok((r, f))
            } else {
                let fs: Vec<Frame> = Vec::new();
                let fs = push_frame(fs, r, FrameKind::Eof);
                let fs = push_frame(fs, input, FrameKind::Context(Section::ForwardExpr));
                proof {
                    assert(fs.deep_view() =~= seq![
                        SpecFrame { at: r@, kind: FrameKind::Eof },
                        SpecFrame {
                            at: input@,
                            kind: FrameKind::Context(Section::ForwardExpr),
                        },
                    ]);
                }
                Err(fs)
            }
        },
    }
}

/// A failed parse, rendered as a message listing each trace frame.
#[derive(Debug, PartialEq, Eq)]
pub struct ParseError(pub String);

/// The leading text of a rendered trace frame.
pub open spec fn spec_kind_prefix(k: FrameKind) -> Seq<char> {
    match k {
        FrameKind::OneOf => "OneOf at: "@,
        FrameKind::ManyMN => "ManyMN at: "@,
        FrameKind::Eof => "Eof at: "@,
        FrameKind::Alt => "Alt at: "@,
        FrameKind::Tag => "Tag at: "@,
        FrameKind::AlphaNumeric => "AlphaNumeric at: "@,
        FrameKind::Count => "Count at: "@,
        FrameKind::Context(sec) => "in section '"@ + sec.spec_name() + "', at: "@,
    }
}

/// One rendered trace frame: what failed, and the input suffix where.
pub open spec fn spec_frame_line(f: SpecFrame) -> Seq<char> {
    spec_kind_prefix(f.kind) + f.at + "\n"@
}

/// All trace frames rendered in order.
pub open spec fn spec_render_frames(fs: Seq<SpecFrame>) -> Seq<char>
    decreases fs.len(),
{
    if fs.len() == 0 {
        Seq::empty()
    } else {
        spec_render_frames(fs.drop_last()) + spec_frame_line(fs.last())
    }
}

/// A whole rendered parse-error message.
pub open spec fn spec_error_message(fs: Seq<SpecFrame>) -> Seq<char> {
    "Parse error:\n"@ + spec_render_frames(fs)
}

/// Renders the leading text of one trace frame.
fn kind_prefix(k: FrameKind) -> (r: String)
    ensures
        r@ == spec_kind_prefix(k),
{
    match k {
        FrameKind::OneOf => String::from_str("OneOf at: "),
        FrameKind::ManyMN => String::from_str("ManyMN at: "),
        FrameKind::Eof => String::from_str("Eof at: "),
        FrameKind::Alt => String::from_str("Alt at: "),
        FrameKind::Tag => String::from_str("Tag at: "),
        FrameKind::AlphaNumeric => String::from_str("AlphaNumeric at: "),
        FrameKind::Count => String::from_str("Count at: "),
        FrameKind::Context(sec) => {
            let mut s = String::from_str("in section '");
            s.append(sec.name());
            s.append("', at: ");
            s
        },
    }
}

/// Renders an error trace as a message, one line per frame.
pub fn render_error(fs: &Vec<Frame>) -> (r: String)
    ensures
        r@ == spec_error_message(fs.deep_view()),
{
    let mut s = String::from_str("Parse error:\n");
    let mut i: usize = 0;
    while i < fs.len()
        invariant
            i <= fs.len(),
            s@ == "Parse error:\n"@ + spec_render_frames(fs.deep_view().take(i as int)),
        decreases fs.len() - i,
    {
        let prefix = kind_prefix(fs[i].kind);
        s.append(prefix.as_str());
        s.append(fs[i].at.as_str());
        s.append("\n");
        proof {
            let dv = fs.deep_view();
            assert(dv[i as int] == fs[i as int].deep_view());
            assert(dv.take(i + 1).drop_last() =~= dv.take(i as int));
            assert(dv.take(i + 1).last() == dv[i as int]);
            assert(s@ =~= "Parse error:\n"@ + spec_render_frames(dv.take(i + 1)));
        }
        i = i + 1;
    }
    proof {
        assert(fs.deep_view().take(fs.len() as int) =~= fs.deep_view());
    }
    s
}

/// Parses a whole forward expression, rendering a failed parse's trace as a
/// [`ParseError`] message.
pub fn parse_forward(s: &str) -> (r: Result<Forward, ParseError>)
    ensures
        match spec_forward(s@) {
            Ok((rest, f)) => r matches Ok(v) && v@ == f,
            Err(fs) => r matches Err(e) && e.0@ == spec_error_message(fs),
        },
{
    match forward(s) {
        Ok((_, f)) => Ok(f),
        Err(fs) => Err(ParseError(render_error(&fs))),
    }
}

impl core::str::FromStr for Forward {
    type Err = ParseError;

    fn from_str(s: &str) -> Result<Forward, ParseError> {
        parse_forward(s)
    }
}

/// Parsing is deterministic: the outcome, including the tag of the parsed
/// forward, is fixed by the input's characters alone. Together with
/// [`forward`]'s contract, two parses of equal input return equal results,
/// and every input the grammar accepts parses successfully.
pub proof fn lemma_forward_deterministic(s: Seq<char>, t: Seq<char>)
    requires
        s =~= t,
    ensures
        spec_forward(s) == spec_forward(t),
{
}

} // verus!
