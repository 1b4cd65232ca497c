//! Framing of the Tor control protocol.
//!
//! A response is a sequence of lines that all carry the same 3-digit status
//! code. Each line starts with the code and one separator byte: a space ends
//! the response, `-` continues it, and `+` opens a data block that runs
//! until `CRLF "." CRLF` and is delivered as a single line (interior line
//! breaks kept). A single response is bounded by 1 MiB of raw input, and
//! every byte must be ASCII.
//!
//! The decoder here is a pure function over received bytes; reading from
//! the socket is the caller's I/O. Its behaviour is pinned byte for byte by
//! a spec-level machine, and the encoder laws below show that well-formed
//! responses decode to themselves with the position left at the next
//! response.

use vstd::prelude::*;

verus! {

use crate::text::bytes_as_chars;
use crate::text::ascii_to_string;

/// The most raw bytes one response may span.
pub const MAX_RESPONSE_BYTES: usize = 1048576;

pub const CR: u8 = 13;

pub const LF: u8 = 10;

pub const DOT: u8 = 46;

pub const SP: u8 = 32;

pub const DASH: u8 = 45;

pub const PLUS: u8 = 43;

/// Why decoding a response failed.
#[derive(Debug, PartialEq, Eq, Structural, Clone, Copy)]
pub enum DecodeError {
    /// The input ended inside a response; more bytes are needed.
    Truncated,
    /// A byte outside the ASCII range appeared.
    NonAsciiByteFound,
    /// A byte appeared where a status digit or separator was expected.
    InvalidCharacterFound,
    /// Two lines of one response carried different status codes.
    ResponseCodeMismatch,
    /// The response ran past the 1 MiB bound.
    TooManyBytesRead,
    /// The response ended without a status code.
    InvalidFormat,
}

/// Where the decoder stands inside a response.
#[derive(Debug, PartialEq, Eq, Structural, Clone, Copy)]
pub enum DecodeState {
    /// Reading the three status digits of a line.
    Code,
    /// Reading the separator after the status digits.
    Sep,
    /// Reading the terminal line, up to its CRLF.
    FinalLine,
    /// Reading an intermediate line, up to its CRLF.
    MidLine,
    /// Reading a data block, up to `CRLF "." CRLF`.
    DataBlock,
}

/// Whether a decimal digit byte.
pub open spec fn is_digit_byte(b: u8) -> bool {
    48 <= b <= 57
}

/// The status code held by three digit bytes.
pub open spec fn code_of_digits(d: Seq<u8>) -> u16
    recommends
        d.len() == 3,
{
    (100 * ((d[0] - 48) as u16) + 10 * ((d[1] - 48) as u16) + ((d[2] - 48) as u16)) as u16
}

/// Whether `s` ends with CRLF.
pub open spec fn ends_with_crlf(s: Seq<u8>) -> bool {
    s.len() >= 2 && s[s.len() - 2] == CR && s[s.len() - 1] == LF
}

/// Whether `s` ends with the data-block terminator `CRLF "." CRLF`.
pub open spec fn ends_with_data_term(s: Seq<u8>) -> bool {
    s.len() >= 5 && s[s.len() - 5] == CR && s[s.len() - 4] == LF && s[s.len() - 3] == DOT && s[
        s.len() - 2
    ] == CR && s[s.len() - 1] == LF
}

/// One step of the response decoder: reads the byte at `i` having consumed
/// `read` bytes so far, with `cur` the bytes of the line being read, `code`
/// the response's status code once known, and `lines` the lines read so
/// far. Returns the response's code, its lines, and the position just after
/// it.
pub open spec fn spec_step(
    bytes: Seq<u8>,
    i: int,
    read: nat,
    st: DecodeState,
    cur: Seq<u8>,
    code: Option<u16>,
    lines: Seq<Seq<u8>>,
) -> Result<(u16, Seq<Seq<u8>>, int), DecodeError>
    decreases MAX_RESPONSE_BYTES - read,
{
    if read >= MAX_RESPONSE_BYTES {
        Err(DecodeError::TooManyBytesRead)
    } else if i < 0 || i >= bytes.len() {
        Err(DecodeError::Truncated)
    } else {
        let b = bytes[i];
        if b >= 128 {
            Err(DecodeError::NonAsciiByteFound)
        } else {
            match st {
                DecodeState::Code => {
                    if !is_digit_byte(b) {
                        Err(DecodeError::InvalidCharacterFound)
                    } else {
                        let cur2 = cur.push(b);
                        if cur2.len() == 3 {
                            let c = code_of_digits(cur2);
                            match code {
                                Some(c0) => {
                                    if c0 != c {
                                        Err(DecodeError::ResponseCodeMismatch)
                                    } else {
                                        spec_step(
                                            bytes,
                                            i + 1,
                                            read + 1,
                                            DecodeState::Sep,
                                            Seq::empty(),
                                            Some(c0),
                                            lines,
                                        )
                                    }
                                },
                                None => spec_step(
                                    bytes,
                                    i + 1,
                                    read + 1,
                                    DecodeState::Sep,
                                    Seq::empty(),
                                    Some(c),
                                    lines,
                                ),
                            }
                        } else {
                            spec_step(bytes, i + 1, read + 1, DecodeState::Code, cur2, code, lines)
                        }
                    }
                },
                DecodeState::Sep => {
                    if b == SP {
                        spec_step(
                            bytes,
                            i + 1,
                            read + 1,
                            DecodeState::FinalLine,
                            Seq::empty(),
                            code,
                            lines,
                        )
                    } else if b == DASH {
                        spec_step(
                            bytes,
                            i + 1,
                            read + 1,
                            DecodeState::MidLine,
                            Seq::empty(),
                            code,
                            lines,
                        )
                    } else if b == PLUS {
                        spec_step(
                            bytes,
                            i + 1,
                            read + 1,
                            DecodeState::DataBlock,
                            Seq::empty(),
                            code,
                            lines,
                        )
                    } else {
                        Err(DecodeError::InvalidCharacterFound)
                    }
                },
                DecodeState::FinalLine => {
                    let cur2 = cur.push(b);
                    if ends_with_crlf(cur2) {
                        let line = cur2.take(cur2.len() - 2);
                        match code {
                            Some(c) => Ok((c, lines.push(line), i + 1)),
                            None => Err(DecodeError::InvalidFormat),
                        }
                    } else {
                        spec_step(
                            bytes,
                            i + 1,
                            read + 1,
                            DecodeState::FinalLine,
                            cur2,
                            code,
                            lines,
                        )
                    }
                },
                DecodeState::MidLine => {
                    let cur2 = cur.push(b);
                    if ends_with_crlf(cur2) {
                        let line = cur2.take(cur2.len() - 2);
                        spec_step(
                            bytes,
                            i + 1,
                            read + 1,
                            DecodeState::Code,
                            Seq::empty(),
                            code,
                            lines.push(line),
                        )
                    } else {
                        spec_step(bytes, i + 1, read + 1, DecodeState::MidLine, cur2, code, lines)
                    }
                },
                DecodeState::DataBlock => {
                    let cur2 = cur.push(b);
                    if ends_with_data_term(cur2) {
                        let line = cur2.take(cur2.len() - 5);
                        spec_step(
                            bytes,
                            i + 1,
                            read + 1,
                            DecodeState::Code,
                            Seq::empty(),
                            code,
                            lines.push(line),
                        )
                    } else {
                        spec_step(bytes, i + 1, read + 1, DecodeState::DataBlock, cur2, code, lines)
                    }
                },
            }
        }
    }
}

/// Decoding one response from `bytes`, starting at `start`.
pub open spec fn spec_decode_response(bytes: Seq<u8>, start: int) -> Result<
    (u16, Seq<Seq<u8>>, int),
    DecodeError,
> {
    spec_step(bytes, start, 0, DecodeState::Code, Seq::empty(), None, Seq::empty())
}

/// One decoded response: its status code and its lines, with separators,
/// CRLFs and data-block terminators stripped.
#[derive(Debug, PartialEq, Eq)]
pub struct Response {
    pub code: u16,
    pub lines: Vec<String>,
}

/// The decoded lines agree with the spec machine's lines, read as ASCII.
pub open spec fn lines_match(ls: Seq<String>, gs: Seq<Seq<u8>>) -> bool {
    ls.len() == gs.len() && forall|j: int|
        0 <= j < gs.len() ==> (#[trigger] ls[j])@ == bytes_as_chars(gs[j])
}

/// Copies the first `n` bytes of `v`.
fn vec_prefix(v: &Vec<u8>, n: usize) -> (r: Vec<u8>)
    requires
        n <= v@.len(),
    ensures
        r@ == v@.take(n as int),
{
    let mut r: Vec<u8> = Vec::new();
    let mut i: usize = 0;
    while i < n
        invariant
            i <= n <= v@.len(),
            r@ == v@.take(i as int),
        decreases n - i,
    {
        r.push(v[i]);
        proof {
            assert(r@ =~= v@.take(i + 1));
        }
        i = i + 1;
    }
    r
}

/// Decodes one response from `buf`, starting at `start`: its code, its
/// lines, and the position just after it, from which the next response can
/// be decoded.
pub fn decode_response(buf: &Vec<u8>, start: usize) -> (r: Result<(Response, usize), DecodeError>)
    ensures
        match spec_decode_response(buf@, start as int) {
            Ok((c, ls, next)) => r matches Ok(p) && p.0.code == c && lines_match(p.0.lines@, ls)
                && p.1 == next,
            Err(e) => r matches Err(e2) && e2 == e,
        },
{
    let mut i = start;
    let mut read: usize = 0;
    let mut st = DecodeState::Code;
    let mut cur: Vec<u8> = Vec::new();
    let mut code: Option<u16> = None;
    let mut lines: Vec<String> = Vec::new();
    let ghost mut gls: Seq<Seq<u8>> = Seq::empty();
    proof {
        assert(lines_match(lines@, gls));
    }
    loop
        invariant
            read <= MAX_RESPONSE_BYTES,
            spec_decode_response(buf@, start as int) == spec_step(
                buf@,
                i as int,
                read as nat,
                st,
                cur@,
                code,
                gls,
            ),
            lines_match(lines@, gls),
            forall|k: int| 0 <= k < cur@.len() ==> cur@[k] < 128,
            st is Code ==> cur@.len() < 3,
            st is Code ==> (forall|k: int| 0 <= k < cur@.len() ==> is_digit_byte(cur@[k])),
        decreases MAX_RESPONSE_BYTES - read,
    {
        if read >= MAX_RESPONSE_BYTES {
            return Err(DecodeError::TooManyBytesRead);
        }
        if i >= buf.len() {
            return Err(DecodeError::Truncated);
        }
        let b = buf[i];
        if b >= 128 {
            return Err(DecodeError::NonAsciiByteFound);
        }
        match st {
            DecodeState::Code => {
                if !(48 <= b && b <= 57) {
                    return Err(DecodeError::InvalidCharacterFound);
                }
                cur.push(b);
                if cur.len() == 3 {
                    let c = 100 * ((cur[0] - 48) as u16) + 10 * ((cur[1] - 48) as u16) + ((cur[2]
                        - 48) as u16);
                    match code {
                        Some(c0) => {
                            if c0 != c {
                                return Err(DecodeError::ResponseCodeMismatch);
                            }
                        },
                        None => {
                            code = Some(c);
                        },
                    }
                    st = DecodeState::Sep;
                    cur = Vec::new();
                }
            },
            DecodeState::Sep => {
                if b == SP {
                    st = DecodeState::FinalLine;
                } else if b == DASH {
                    st = DecodeState::MidLine;
                } else if b == PLUS {
                    st = DecodeState::DataBlock;
                } else {
                    return Err(DecodeError::InvalidCharacterFound);
                }
                cur = Vec::new();
            },
            DecodeState::FinalLine => {
                cur.push(b);
                let n = cur.len();
                if n >= 2 && cur[n - 2] == CR && cur[n - 1] == LF {
                    let line = vec_prefix(&cur, n - 2);
                    let text = ascii_to_string(&line);
                    match code {
                        Some(c) => {
                            lines.push(text);
                            proof {
                                gls = gls.push(cur@.take(cur@.len() - 2));
                                assert(lines_match(lines@, gls));
                            }
                            return Ok((Response { code: c, lines }, i + 1));
                        },
                        None => {
                            return Err(DecodeError::InvalidFormat);
                        },
                    }
                }
            },
            DecodeState::MidLine => {
                cur.push(b);
                let n = cur.len();
                if n >= 2 && cur[n - 2] == CR && cur[n - 1] == LF {
                    let line = vec_prefix(&cur, n - 2);
                    let text = ascii_to_string(&line);
                    lines.push(text);
                    proof {
                        gls = gls.push(cur@.take(cur@.len() - 2));
                        assert(lines_match(lines@, gls));
                    }
                    st = DecodeState::Code;
                    cur = Vec::new();
                }
            },
            DecodeState::DataBlock => {
                cur.push(b);
                let n = cur.len();
                if n >= 5 && cur[n - 5] == CR && cur[n - 4] == LF && cur[n - 3] == DOT && cur[n - 2]
                    == CR && cur[n - 1] == LF {
                    let line = vec_prefix(&cur, n - 5);
                    let text = ascii_to_string(&line);
                    lines.push(text);
                    proof {
                        gls = gls.push(cur@.take(cur@.len() - 5));
                        assert(lines_match(lines@, gls));
                    }
                    st = DecodeState::Code;
                    cur = Vec::new();
                }
            },
        }
        i = i + 1;
        read = read + 1;
    }
}



/// The CRLF line terminator.
pub open spec fn crlf() -> Seq<u8> {
    seq![CR, LF]
}

/// The data-block terminator `CRLF "." CRLF`.
pub open spec fn data_term() -> Seq<u8> {
    seq![CR, LF, DOT, CR, LF]
}

/// A status code as three digit bytes, zero-padded.
pub open spec fn code_digit_bytes(code: u16) -> Seq<u8> {
    seq![(48 + code / 100) as u8, (48 + (code / 10) % 10) as u8, (48 + code % 10) as u8]
}

/// One line of a response before its terminal line: an intermediate line,
/// or a data block.
pub enum ReplyLine {
    Mid(Seq<u8>),
    Data(Seq<u8>),
}

impl ReplyLine {
    /// The line's content as the decoder delivers it.
    pub open spec fn content(self) -> Seq<u8> {
        match self {
            ReplyLine::Mid(c) => c,
            ReplyLine::Data(c) => c,
        }
    }
}

/// All bytes within the ASCII range.
pub open spec fn ascii_content(c: Seq<u8>) -> bool {
    forall|k: int| 0 <= k < c.len() ==> c[k] < 128
}

/// CRLF stands at position `k` of `s`.
pub open spec fn crlf_at(s: Seq<u8>, k: int) -> bool {
    0 <= k && k + 2 <= s.len() && s[k] == CR && s[k + 1] == LF
}

/// The data-block terminator stands at position `k` of `s`.
pub open spec fn term_at(s: Seq<u8>, k: int) -> bool {
    0 <= k && k + 5 <= s.len() && s[k] == CR && s[k + 1] == LF && s[k + 2] == DOT && s[k + 3] == CR
        && s[k + 4] == LF
}

/// A well-formed simple line: ASCII, with its first CRLF the one that the
/// encoder appends.
pub open spec fn wf_mid_content(c: Seq<u8>) -> bool {
    ascii_content(c) && forall|k: int| 0 <= k < c.len() ==> !crlf_at(c + crlf(), k)
}

/// A well-formed data block: ASCII, with the first terminator occurrence
/// the one that the encoder appends.
pub open spec fn wf_data_content(c: Seq<u8>) -> bool {
    ascii_content(c) && forall|k: int| 0 <= k < c.len() ==> !term_at(c + data_term(), k)
}

/// A well-formed reply line.
pub open spec fn wf_line(l: ReplyLine) -> bool {
    match l {
        ReplyLine::Mid(c) => wf_mid_content(c),
        ReplyLine::Data(c) => wf_data_content(c),
    }
}

/// One encoded reply line: the code, the separator, the content, and the
/// terminator.
pub open spec fn encode_line(code: u16, l: ReplyLine) -> Seq<u8> {
    match l {
        ReplyLine::Mid(c) => code_digit_bytes(code) + seq![DASH] + c + crlf(),
        ReplyLine::Data(c) => code_digit_bytes(code) + seq![PLUS] + c + data_term(),
    }
}

/// The encoded lines before the terminal line, in order.
pub open spec fn encode_lines(code: u16, ls: Seq<ReplyLine>) -> Seq<u8>
    decreases ls.len(),
{
    if ls.len() == 0 {
        Seq::empty()
    } else {
        encode_line(code, ls[0]) + encode_lines(code, ls.drop_first())
    }
}

/// A whole encoded response: the lines before the terminal line, then the
/// terminal line.
pub open spec fn encode_response(code: u16, mids: Seq<ReplyLine>, last: Seq<u8>) -> Seq<u8> {
    encode_lines(code, mids) + code_digit_bytes(code) + seq![SP] + last + crlf()
}

/// The line contents that decoding a response must deliver.
pub open spec fn response_contents(mids: Seq<ReplyLine>, last: Seq<u8>) -> Seq<Seq<u8>> {
    mids.map_values(|l: ReplyLine| l.content()).push(last)
}

/// The sequence `s` stands in `bytes` at position `i`.
pub open spec fn bytes_at(bytes: Seq<u8>, i: int, s: Seq<u8>) -> bool {
    0 <= i && i + s.len() <= bytes.len() && forall|k: int|
        0 <= k < s.len() ==> bytes[i + k] == #[trigger] s[k]
}

proof fn lemma_code_digits(code: u16)
    requires
        code <= 999,
    ensures
        forall|k: int| 0 <= k < 3 ==> is_digit_byte(#[trigger] code_digit_bytes(code)[k]),
        code_of_digits(code_digit_bytes(code)) == code,
{
    let d = code_digit_bytes(code);
    assert(code / 100 <= 9 && (code / 10) % 10 <= 9 && code % 10 <= 9) by (nonlinear_arith)
        requires
            code <= 999,
    ;
    assert(100 * (code / 100) + 10 * ((code / 10) % 10) + code % 10 == code) by (nonlinear_arith);
    assert(forall|k: int| 0 <= k < 3 ==> is_digit_byte(#[trigger] d[k]));
}

/// Reading three status digits and a separator moves the decoder from the
/// start of a line into the line's body.
proof fn lemma_step_code_sep(
    bytes: Seq<u8>,
    i: int,
    read: nat,
    code: u16,
    co: Option<u16>,
    sep: u8,
    lines: Seq<Seq<u8>>,
)
    requires
        code <= 999,
        co is None || co == Some(code),
        sep == SP || sep == DASH || sep == PLUS,
        bytes_at(bytes, i, code_digit_bytes(code) + seq![sep]),
        read + 4 <= MAX_RESPONSE_BYTES,
    ensures
        spec_step(bytes, i, read, DecodeState::Code, Seq::empty(), co, lines) == spec_step(
            bytes,
            i + 4,
            (read + 4) as nat,
            if sep == SP {
                DecodeState::FinalLine
            } else if sep == DASH {
                DecodeState::MidLine
            } else {
                DecodeState::DataBlock
            },
            Seq::empty(),
            Some(code),
            lines,
        ),
{
    lemma_code_digits(code);
    let d = code_digit_bytes(code);
    let t = code_digit_bytes(code) + seq![sep];
    assert(t[0] == d[0] && t[1] == d[1] && t[2] == d[2] && t[3] == sep);
    assert(bytes[i + 0] == t[0] && bytes[i + 1] == t[1] && bytes[i + 2] == t[2] && bytes[i + 3]
        == t[3]);
    let c0 = Seq::<u8>::empty().push(d[0]);
    let c1 = c0.push(d[1]);
    let c2 = c1.push(d[2]);
    assert(c2 =~= d);
    assert(d[0] < 128 && d[1] < 128 && d[2] < 128 && sep < 128);
    assert(spec_step(bytes, i, read, DecodeState::Code, Seq::empty(), co, lines) == spec_step(
        bytes,
        i + 1,
        (read + 1) as nat,
        DecodeState::Code,
        c0,
        co,
        lines,
    ));
    assert(spec_step(bytes, i + 1, (read + 1) as nat, DecodeState::Code, c0, co, lines)
        == spec_step(bytes, i + 2, (read + 2) as nat, DecodeState::Code, c1, co, lines));
    assert(code_of_digits(c2) == code);
    assert(spec_step(bytes, i + 2, (read + 2) as nat, DecodeState::Code, c1, co, lines)
        == spec_step(bytes, i + 3, (read + 3) as nat, DecodeState::Sep, Seq::empty(), Some(code), lines));
}

/// Reading a well-formed simple line's remaining content and its CRLF ends
/// the line exactly at the CRLF, delivering the content.
proof fn lemma_step_line(
    bytes: Seq<u8>,
    i: int,
    read: nat,
    code: u16,
    lines: Seq<Seq<u8>>,
    content: Seq<u8>,
    j: int,
    last: bool,
)
    requires
        wf_mid_content(content),
        0 <= j <= content.len(),
        bytes_at(bytes, i, content.skip(j) + crlf()),
        read + (content.len() - j) + 2 <= MAX_RESPONSE_BYTES,
    ensures
        spec_step(
            bytes,
            i,
            read,
            if last {
                DecodeState::FinalLine
            } else {
                DecodeState::MidLine
            },
            content.take(j),
            Some(code),
            lines,
        ) == (if last {
            Ok::<(u16, Seq<Seq<u8>>, int), DecodeError>(
                (code, lines.push(content), i + (content.len() - j) + 2),
            )
        } else {
            spec_step(
                bytes,
                i + (content.len() - j) + 2,
                (read + (content.len() - j) + 2) as nat,
                DecodeState::Code,
                Seq::empty(),
                Some(code),
                lines.push(content),
            )
        }),
    decreases content.len() - j,
{
    let st = if last {
        DecodeState::FinalLine
    } else {
        DecodeState::MidLine
    };
    let rem = content.skip(j) + crlf();
    if j == content.len() {
        assert(rem[0] == CR && rem[1] == LF);
        assert(bytes[i + 0] == rem[0] && bytes[i + 1] == rem[1]);
        let cur1 = content.take(j).push(CR);
        assert(content.take(j) =~= content);
        assert(!ends_with_crlf(cur1));
        assert(spec_step(bytes, i, read, st, content.take(j), Some(code), lines) == spec_step(
            bytes,
            i + 1,
            (read + 1) as nat,
            st,
            cur1,
            Some(code),
            lines,
        ));
        let cur2 = cur1.push(LF);
        assert(ends_with_crlf(cur2));
        assert(cur2.take(cur2.len() - 2) =~= content);
    } else {
        let b = content[j];
        assert(rem[0] == b);
        assert(bytes[i + 0] == rem[0]);
        assert(b < 128);
        let cur2 = content.take(j).push(b);
        assert(cur2 =~= content.take(j + 1));
        if ends_with_crlf(cur2) {
            assert((content + crlf())[j - 1] == CR && (content + crlf())[j] == LF);
            assert(crlf_at(content + crlf(), j - 1));
            assert(false);
        }
        assert(spec_step(bytes, i, read, st, content.take(j), Some(code), lines) == spec_step(
            bytes,
            i + 1,
            (read + 1) as nat,
            st,
            content.take(j + 1),
            Some(code),
            lines,
        ));
        assert(bytes_at(bytes, i + 1, content.skip(j + 1) + crlf())) by {
            assert(forall|k: int|
                0 <= k < rem.len() - 1 ==> #[trigger] (content.skip(j + 1) + crlf())[k] == rem[k + 1]);
        }
        lemma_step_line(bytes, i + 1, (read + 1) as nat, code, lines, content, j + 1, last);
    }
}

/// Reading a well-formed data block's remaining content and its terminator
/// ends the block exactly at the terminator, delivering the content with
/// its interior line breaks.
proof fn lemma_step_data(
    bytes: Seq<u8>,
    i: int,
    read: nat,
    code: u16,
    lines: Seq<Seq<u8>>,
    content: Seq<u8>,
    j: int,
)
    requires
        wf_data_content(content),
        0 <= j <= content.len(),
        bytes_at(bytes, i, content.skip(j) + data_term()),
        read + (content.len() - j) + 5 <= MAX_RESPONSE_BYTES,
    ensures
        spec_step(bytes, i, read, DecodeState::DataBlock, content.take(j), Some(code), lines)
            == spec_step(
            bytes,
            i + (content.len() - j) + 5,
            (read + (content.len() - j) + 5) as nat,
            DecodeState::Code,
            Seq::empty(),
            Some(code),
            lines.push(content),
        ),
    decreases content.len() - j,
{
    let rem = content.skip(j) + data_term();
    if j == content.len() {
        assert(rem[0] == CR && rem[1] == LF && rem[2] == DOT && rem[3] == CR && rem[4] == LF);
        assert(bytes[i + 0] == rem[0] && bytes[i + 1] == rem[1] && bytes[i + 2] == rem[2] && bytes[
            i + 3
        ] == rem[3] && bytes[i + 4] == rem[4]);
        assert(content.take(j) =~= content);
        let cur1 = content.push(CR);
        assert(!ends_with_data_term(cur1));
        assert(spec_step(bytes, i, read, DecodeState::DataBlock, content.take(j), Some(code), lines)
            == spec_step(bytes, i + 1, (read + 1) as nat, DecodeState::DataBlock, cur1, Some(code), lines));
        let cur2 = cur1.push(LF);
        if ends_with_data_term(cur2) {
            assert((content + data_term())[content.len() - 3] == CR && (content + data_term())[
                content.len() - 2
            ] == LF && (content + data_term())[content.len() - 1] == DOT && (content
                + data_term())[content.len() as int] == CR && (content + data_term())[
                content.len() + 1 as int
            ] == LF);
            assert(term_at(content + data_term(), content.len() - 3));
            assert(false);
        }
        assert(spec_step(bytes, i + 1, (read + 1) as nat, DecodeState::DataBlock, cur1, Some(code), lines)
            == spec_step(bytes, i + 2, (read + 2) as nat, DecodeState::DataBlock, cur2, Some(code), lines));
        let cur3 = cur2.push(DOT);
        assert(!ends_with_data_term(cur3));
        assert(spec_step(bytes, i + 2, (read + 2) as nat, DecodeState::DataBlock, cur2, Some(code), lines)
            == spec_step(bytes, i + 3, (read + 3) as nat, DecodeState::DataBlock, cur3, Some(code), lines));
        let cur4 = cur3.push(CR);
        assert(!ends_with_data_term(cur4));
        assert(spec_step(bytes, i + 3, (read + 3) as nat, DecodeState::DataBlock, cur3, Some(code), lines)
            == spec_step(bytes, i + 4, (read + 4) as nat, DecodeState::DataBlock, cur4, Some(code), lines));
        let cur5 = cur4.push(LF);
        assert(cur5 =~= content + data_term());
        assert(ends_with_data_term(cur5)) by {
            assert(cur5[cur5.len() - 5] == CR && cur5[cur5.len() - 4] == LF && cur5[cur5.len() - 3]
                == DOT && cur5[cur5.len() - 2] == CR && cur5[cur5.len() - 1] == LF);
        }
        assert(cur5.take(cur5.len() - 5) =~= content);
    } else {
        let b = content[j];
        assert(rem[0] == b);
        assert(bytes[i + 0] == rem[0]);
        assert(b < 128);
        let cur2 = content.take(j).push(b);
        assert(cur2 =~= content.take(j + 1));
        if ends_with_data_term(cur2) {
            assert((content + data_term())[j - 4] == CR && (content + data_term())[j - 3] == LF
                && (content + data_term())[j - 2] == DOT && (content + data_term())[j - 1] == CR
                && (content + data_term())[j] == LF);
            assert(term_at(content + data_term(), j - 4));
            assert(false);
        }
        assert(spec_step(bytes, i, read, DecodeState::DataBlock, content.take(j), Some(code), lines)
            == spec_step(
            bytes,
            i + 1,
            (read + 1) as nat,
            DecodeState::DataBlock,
            content.take(j + 1),
            Some(code),
            lines,
        ));
        assert(bytes_at(bytes, i + 1, content.skip(j + 1) + data_term())) by {
            assert(forall|k: int|
                0 <= k < rem.len() - 1 ==> #[trigger] (content.skip(j + 1) + data_term())[k] == rem[k + 1]);
        }
        lemma_step_data(bytes, i + 1, (read + 1) as nat, code, lines, content, j + 1);
    }
}

/// Reading the encoded lines before the terminal line extends the decoded
/// lines by their contents, in order.
proof fn lemma_step_lines(
    bytes: Seq<u8>,
    i: int,
    read: nat,
    code: u16,
    co: Option<u16>,
    lines: Seq<Seq<u8>>,
    ls: Seq<ReplyLine>,
)
    requires
        code <= 999,
        co is None || co == Some(code),
        forall|k: int| 0 <= k < ls.len() ==> wf_line(#[trigger] ls[k]),
        bytes_at(bytes, i, encode_lines(code, ls)),
        read + encode_lines(code, ls).len() <= MAX_RESPONSE_BYTES,
    ensures
        spec_step(bytes, i, read, DecodeState::Code, Seq::empty(), co, lines) == spec_step(
            bytes,
            i + encode_lines(code, ls).len(),
            (read + encode_lines(code, ls).len()) as nat,
            DecodeState::Code,
            Seq::empty(),
            if ls.len() == 0 {
                co
            } else {
                Some(code)
            },
            lines + ls.map_values(|l: ReplyLine| l.content()),
        ),
    decreases ls.len(),
{
    if ls.len() == 0 {
        assert(lines + ls.map_values(|l: ReplyLine| l.content()) =~= lines);
    } else {
        let l0 = ls[0];
        let e0 = encode_line(code, l0);
        let rest = ls.drop_first();
        let el = encode_lines(code, ls);
        assert(el == e0 + encode_lines(code, rest));
        let c = l0.content();
        let sep = if l0 is Mid {
            DASH
        } else {
            PLUS
        };
        assert(bytes_at(bytes, i, code_digit_bytes(code) + seq![sep])) by {
            assert(forall|k: int|
                0 <= k < 4 ==> #[trigger] (code_digit_bytes(code) + seq![sep])[k] == el[k]);
        }
        lemma_step_code_sep(bytes, i, read, code, co, sep, lines);
        match l0 {
            ReplyLine::Mid(content) => {
                assert(bytes_at(bytes, i + 4, content.skip(0) + crlf())) by {
                    assert(forall|k: int|
                        0 <= k < content.len() + 2 ==> #[trigger] (content.skip(0) + crlf())[k] == el[4 + k]);
                }
                assert(content.take(0) =~= Seq::<u8>::empty());
                lemma_step_line(bytes, i + 4, (read + 4) as nat, code, lines, content, 0, false);
                let i2 = i + 4 + content.len() + 2;
                let read2 = (read + 4 + content.len() + 2) as nat;
                assert(i2 == i + e0.len() && read2 == read + e0.len());
                assert(bytes_at(bytes, i2, encode_lines(code, rest))) by {
                    assert(forall|k: int|
                        0 <= k < encode_lines(code, rest).len() ==> #[trigger] encode_lines(
                            code,
                            rest,
                        )[k] == el[e0.len() + k]);
                }
                assert(forall|k: int| 0 <= k < rest.len() ==> wf_line(#[trigger] rest[k]));
                lemma_step_lines(bytes, i2, read2, code, Some(code), lines.push(c), rest);
                assert(lines.push(c) + rest.map_values(|l: ReplyLine| l.content()) =~= lines
                    + ls.map_values(|l: ReplyLine| l.content()));
            },
            ReplyLine::Data(content) => {
                assert(bytes_at(bytes, i + 4, content.skip(0) + data_term())) by {
                    assert(forall|k: int|
                        0 <= k < content.len() + 5 ==> #[trigger] (content.skip(0) + data_term())[k] == el[4
                            + k]);
                }
                assert(content.take(0) =~= Seq::<u8>::empty());
                lemma_step_data(bytes, i + 4, (read + 4) as nat, code, lines, content, 0);
                let i2 = i + 4 + content.len() + 5;
                let read2 = (read + 4 + content.len() + 5) as nat;
                assert(i2 == i + e0.len() && read2 == read + e0.len());
                assert(bytes_at(bytes, i2, encode_lines(code, rest))) by {
                    assert(forall|k: int|
                        0 <= k < encode_lines(code, rest).len() ==> #[trigger] encode_lines(
                            code,
                            rest,
                        )[k] == el[e0.len() + k]);
                }
                assert(forall|k: int| 0 <= k < rest.len() ==> wf_line(#[trigger] rest[k]));
                lemma_step_lines(bytes, i2, read2, code, Some(code), lines.push(c), rest);
                assert(lines.push(c) + rest.map_values(|l: ReplyLine| l.content()) =~= lines
                    + ls.map_values(|l: ReplyLine| l.content()));
            },
        }
    }
}

/// Decoding a well-formed encoded response yields exactly its code and its
/// line contents, and leaves the position at the next response: framing
/// round-trips, response by response.
pub proof fn lemma_decode_encoded_response(
    bytes: Seq<u8>,
    start: int,
    code: u16,
    mids: Seq<ReplyLine>,
    last: Seq<u8>,
)
    requires
        code <= 999,
        forall|k: int| 0 <= k < mids.len() ==> wf_line(#[trigger] mids[k]),
        wf_mid_content(last),
        bytes_at(bytes, start, encode_response(code, mids, last)),
        encode_response(code, mids, last).len() <= MAX_RESPONSE_BYTES,
    ensures
        spec_decode_response(bytes, start) == Ok::<(u16, Seq<Seq<u8>>, int), DecodeError>(
            (code, response_contents(mids, last), start + encode_response(code, mids, last).len()),
        ),
{
    let enc = encode_response(code, mids, last);
    let el = encode_lines(code, mids);
    assert(bytes_at(bytes, start, el)) by {
        assert(forall|k: int| 0 <= k < el.len() ==> #[trigger] el[k] == enc[k]);
    }
    lemma_step_lines(bytes, start, 0, code, None, Seq::empty(), mids);
    let i2 = start + el.len();
    let read2 = el.len() as nat;
    let co2 = if mids.len() == 0 {
        None
    } else {
        Some(code)
    };
    assert(Seq::<Seq<u8>>::empty() + mids.map_values(|l: ReplyLine| l.content()) =~= mids.map_values(
        |l: ReplyLine| l.content(),
    ));
    assert(bytes_at(bytes, i2, code_digit_bytes(code) + seq![SP])) by {
        assert(forall|k: int|
            0 <= k < 4 ==> #[trigger] (code_digit_bytes(code) + seq![SP])[k] == enc[el.len() + k]);
    }
    lemma_step_code_sep(
        bytes,
        i2,
        read2,
        code,
        co2,
        SP,
        mids.map_values(|l: ReplyLine| l.content()),
    );
    assert(bytes_at(bytes, i2 + 4, last.skip(0) + crlf())) by {
        assert(forall|k: int|
            0 <= k < last.len() + 2 ==> #[trigger] (last.skip(0) + crlf())[k] == enc[el.len() + 4 + k]);
    }
    assert(last.take(0) =~= Seq::<u8>::empty());
    lemma_step_line(
        bytes,
        i2 + 4,
        (read2 + 4) as nat,
        code,
        mids.map_values(|l: ReplyLine| l.content()),
        last,
        0,
        true,
    );
    assert(start + enc.len() == i2 + 4 + last.len() + 2);
}


/// Errors of an unauthenticated control connection.
#[derive(Debug, PartialEq, Eq, Structural, Clone, Copy)]
pub enum UnauthenticatedConnError {
    /// Authentication info was fetched twice, which would break the
    /// connection.
    InfoFetchedTwice,
    /// A safe-cookie handshake reached the wrong server.
    ServerHashMismatch,
}

/// Errors of an authenticated control connection.
#[derive(Debug, PartialEq, Eq, Structural, Clone, Copy)]
pub enum AuthenticatedConnError {
    /// A user-provided keyword or option is not valid.
    InvalidKeywordValue,
    /// A domain passed for resolution is not valid.
    InvalidHostnameValue,
    /// An onion service's port settings are not valid.
    InvalidListenerSpecification,
    /// An onion service identifier is not valid.
    InvalidOnionServiceIdentifier,
    /// An event name is not valid.
    InvalidEventName,
}

/// Any error a control connection may report.
#[derive(Debug, PartialEq, Eq)]
pub enum ConnError {
    IOError(String),
    Utf8Error(String),
    FromUtf8Error(String),
    ParseIntError(String),
    UnauthenticatedConnError(UnauthenticatedConnError),
    AuthenticatedConnError(AuthenticatedConnError),
    /// The server returned an unexpected status code.
    InvalidResponseCode(u16),
    InvalidFormat,
    InvalidCharacterFound,
    NonAsciiByteFound,
    ResponseCodeMismatch,
    TooManyBytesRead,
}

/// Maps a framing failure to the connection error it stands for; a
/// truncated stream is an I/O failure of the reader.
pub fn conn_error_of_decode(e: DecodeError) -> (r: ConnError)
    ensures
        match e {
            DecodeError::Truncated => r matches ConnError::IOError(m) && m@
                == "unexpected end of stream"@,
            DecodeError::NonAsciiByteFound => r == ConnError::NonAsciiByteFound,
            DecodeError::InvalidCharacterFound => r == ConnError::InvalidCharacterFound,
            DecodeError::ResponseCodeMismatch => r == ConnError::ResponseCodeMismatch,
            DecodeError::TooManyBytesRead => r == ConnError::TooManyBytesRead,
            DecodeError::InvalidFormat => r == ConnError::InvalidFormat,
        },
{
    match e {
        DecodeError::Truncated => ConnError::IOError(String::from_str("unexpected end of stream")),
        DecodeError::NonAsciiByteFound => ConnError::NonAsciiByteFound,
        DecodeError::InvalidCharacterFound => ConnError::InvalidCharacterFound,
        DecodeError::ResponseCodeMismatch => ConnError::ResponseCodeMismatch,
        DecodeError::TooManyBytesRead => ConnError::TooManyBytesRead,
        DecodeError::InvalidFormat => ConnError::InvalidFormat,
    }
}

/// A reply's status code means success exactly when it is 250.
pub fn check_reply(code: u16) -> (r: Result<(), ConnError>)
    ensures
        code == 250 ==> r is Ok,
        code != 250 ==> (r matches Err(e) && e == ConnError::InvalidResponseCode(code)),
{
    if code == 250 {
        Ok(())
    } else {
        Err(ConnError::InvalidResponseCode(code))
    }
}

/// The null-authentication command.
pub fn authenticate_null_command() -> (r: String)
    ensures
        r@ == "AUTHENTICATE\r\n"@,
{
    String::from_str("AUTHENTICATE\r\n")
}

/// The command that ties Tor's lifetime to this control connection.
pub fn take_ownership_command() -> (r: String)
    ensures
        r@ == "TAKEOWNERSHIP\r\n"@,
{
    String::from_str("TAKEOWNERSHIP\r\n")
}

/// A valid onion service identifier: non-empty, letters and digits only.
pub open spec fn is_valid_onion_identifier(s: Seq<char>) -> bool {
    s.len() > 0 && forall|i: int| 0 <= i < s.len() ==> crate::parse::is_alnum_char(#[trigger] s[i])
}

/// The command that removes an onion service, by its address without the
/// `.onion` suffix.
pub open spec fn spec_del_onion_command(addr: Seq<char>) -> Seq<char> {
    "DEL_ONION "@ + addr + "\r\n"@
}

/// Builds a DEL_ONION command; an identifier with other than letters and
/// digits is refused before anything reaches the wire.
pub fn del_onion_command(addr: &str) -> (r: Result<String, ConnError>)
    ensures
        is_valid_onion_identifier(addr@) ==> (r matches Ok(s) && s@ == spec_del_onion_command(
            addr@,
        )),
        !is_valid_onion_identifier(addr@) ==> (r matches Err(e) && e
            == ConnError::AuthenticatedConnError(
            AuthenticatedConnError::InvalidOnionServiceIdentifier,
        )),
{
    let len = addr.unicode_len();
    if len == 0 {
        return Err(
            ConnError::AuthenticatedConnError(
                AuthenticatedConnError::InvalidOnionServiceIdentifier,
            ),
        );
    }
    let mut i: usize = 0;
    while i < len
        invariant
            i <= len,
            len == addr@.len(),
            forall|j: int| 0 <= j < i ==> crate::parse::is_alnum_char(#[trigger] addr@[j]),
        decreases len - i,
    {
        let c = addr.get_char(i);
        if !(('0' <= c && c <= '9') || ('a' <= c && c <= 'z') || ('A' <= c && c <= 'Z')) {
            return Err(
                ConnError::AuthenticatedConnError(
                    AuthenticatedConnError::InvalidOnionServiceIdentifier,
                ),
            );
        }
        i = i + 1;
    }
    let mut s = String::from_str("DEL_ONION ");
    s.append(addr);
    s.append("\r\n");
    Ok(s)
}

/// One onion-port mapping of an ADD_ONION command.
pub open spec fn spec_port_mapping(p: u16, a: crate::addr::SockAddrView) -> Seq<char> {
    " Port="@ + crate::text::spec_decimal(p as nat) + seq![','] + crate::addr::spec_render_sock_addr(
        a,
    )
}

/// All onion-port mappings of an ADD_ONION command, in order.
pub open spec fn spec_port_mappings(ps: Seq<(u16, crate::addr::SockAddrView)>) -> Seq<char>
    decreases ps.len(),
{
    if ps.len() == 0 {
        Seq::empty()
    } else {
        spec_port_mappings(ps.drop_last()) + spec_port_mapping(ps.last().0, ps.last().1)
    }
}

/// The command that registers a v3 onion service: the key blob is the
/// base64 encoding of the 64-byte expanded key, and each mapping publishes
/// one onion port at one local address.
pub open spec fn spec_add_onion_command(
    key_b64: Seq<char>,
    ps: Seq<(u16, crate::addr::SockAddrView)>,
) -> Seq<char> {
    "ADD_ONION ed25519-v3:"@ + key_b64 + spec_port_mappings(ps) + "\r\n"@
}

/// The spec-level form of a port mapping list.
pub open spec fn port_mappings_view(ps: Seq<(u16, crate::addr::SockAddr)>) -> Seq<
    (u16, crate::addr::SockAddrView),
> {
    ps.map_values(|p: (u16, crate::addr::SockAddr)| (p.0, p.1@))
}

/// Builds an ADD_ONION command for a 64-byte v3 service key and a list of
/// onion-port mappings.
pub fn add_onion_command(key: &Vec<u8>, ports: &Vec<(u16, crate::addr::SockAddr)>) -> (r: String)
    requires
        key@.len() == 64,
    ensures
        r@ == spec_add_onion_command(
            crate::keystore::base64_of(key@),
            port_mappings_view(ports@),
        ),
{
    let mut s = String::from_str("ADD_ONION ed25519-v3:");
    let blob = crate::keystore::base64_encode(key.as_slice());
    s.append(blob.as_str());
    let mut i: usize = 0;
    while i < ports.len()
        invariant
            i <= ports@.len(),
            s@ == "ADD_ONION ed25519-v3:"@ + crate::keystore::base64_of(key@)
                + spec_port_mappings(port_mappings_view(ports@).take(i as int)),
        decreases ports@.len() - i,
    {
        s.append(" Port=");
        let p = crate::text::u16_to_string(ports[i].0);
        s.append(p.as_str());
        s.append(",");
        let a = ports[i].1.render();
        s.append(a.as_str());
        proof {
            reveal_strlit(",");
            assert(","@ =~= seq![',']);
            let pv = port_mappings_view(ports@);
            assert(pv.take(i + 1).drop_last() =~= pv.take(i as int));
            assert(pv.take(i + 1).last() == pv[i as int]);
            assert(s@ =~= "ADD_ONION ed25519-v3:"@ + crate::keystore::base64_of(key@)
                + spec_port_mappings(pv.take(i + 1)));
        }
        i = i + 1;
    }
    s.append("\r\n");
    proof {
        assert(port_mappings_view(ports@).take(ports@.len() as int) =~= port_mappings_view(
            ports@,
        ));
    }
    s
}

} // verus!
