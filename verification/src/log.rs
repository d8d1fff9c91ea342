//! The program's log: the lines written so far, trimmed at a line boundary
//! to about one megabyte, and a copy with the user's names hidden.
use vstd::prelude::*;
use vstd::string::StringExecFns;
use vstd::utf8::{
    encode_utf8, encode_utf8_valid_utf8, is_char_boundary, is_char_boundary_iff_not_is_continuation_byte,
    is_char_boundary_start_end_of_seq, valid_utf8, valid_utf8_split,
};
use crate::text::{decimal, replace, replace_all, to_decimal};

verus! {

/// Max retained log size in bytes (about 1 MB).
pub const MAX_LOG_BYTES: usize = 1000000;

/// The retained log.
pub struct LogBuffer {
    text: String,
}

/// First index from `start` on that holds a line feed.
pub open spec fn newline_from(b: Seq<u8>, start: int) -> Option<int>
    decreases b.len() - start,
{
    if start < 0 || start >= b.len() {
        None
    } else if b[start] == 0x0au8 {
        Some(start)
    } else {
        newline_from(b, start + 1)
    }
}

proof fn lemma_newline_from(b: Seq<u8>, start: int)
    requires
        0 <= start,
    ensures
        match newline_from(b, start) {
            Some(p) => start <= p < b.len() && b[p] == 0x0au8 && forall|j: int| start <= j < p ==> b[j] != 0x0au8,
            None => forall|j: int| start <= j < b.len() ==> b[j] != 0x0au8,
        },
    decreases b.len() - start,
{
    if start < b.len() && b[start] != 0x0au8 {
        lemma_newline_from(b, start + 1);
    }
}

/// Where a log of bytes `b` is cut when it exceeds the limit: after the first
/// line feed at or past the excess, or at the excess when there is none.
pub open spec fn trim_start(b: Seq<u8>) -> int {
    let cut = b.len() - MAX_LOG_BYTES;
    match newline_from(b, cut) {
        Some(p) => p + 1,
        None => cut,
    }
}

/// The log `b` trimmed to the limit at a line boundary.
pub open spec fn trimmed(b: Seq<u8>) -> Seq<u8> {
    if b.len() > MAX_LOG_BYTES {
        b.subrange(trim_start(b), b.len() as int)
    } else {
        b
    }
}

/// Trimming cannot cut `b`: the excess falls inside a character.
pub open spec fn trim_fails(b: Seq<u8>) -> bool {
    b.len() > MAX_LOG_BYTES && !is_char_boundary(b, b.len() - MAX_LOG_BYTES)
}

/// `b` is empty or ends with a line feed.
pub open spec fn ends_lines(b: Seq<u8>) -> bool {
    b.len() == 0 || b.last() == 0x0au8
}

proof fn lemma_trimmed_ends_lines(b: Seq<u8>)
    requires
        ends_lines(b),
    ensures
        ends_lines(trimmed(b)),
{
    if b.len() > MAX_LOG_BYTES {
        let cut = b.len() - MAX_LOG_BYTES;
        lemma_newline_from(b, cut);
        let t = trimmed(b);
        if t.len() > 0 {
            assert(t.last() == b.last());
        }
    }
}

/// Trimming keeps the log within its limit, keeps the end of it, and cuts
/// right after a line feed whenever one follows the excess.
pub proof fn law_log_bounded(b: Seq<u8>)
    ensures
        trimmed(b).len() <= MAX_LOG_BYTES,
        trimmed(b) == b.subrange(b.len() - trimmed(b).len(), b.len() as int),
        b.len() <= MAX_LOG_BYTES ==> trimmed(b) == b,
        b.len() > MAX_LOG_BYTES && newline_from(b, b.len() - MAX_LOG_BYTES) is Some ==> b[trim_start(b) - 1]
            == 0x0au8,
{
    if b.len() > MAX_LOG_BYTES {
        lemma_newline_from(b, b.len() - MAX_LOG_BYTES);
    } else {
        assert(b.subrange(0, b.len() as int) =~= b);
    }
}

/// A line pushed on a log that is empty or ends with a line feed stays whole
/// at the end of the log, if it is shorter than the limit.
pub proof fn law_push_keeps_line(log: Seq<u8>, line: Seq<char>)
    requires
        ends_lines(log),
        line_bytes(line).len() < MAX_LOG_BYTES,
    ensures
        ({
            let t = trimmed(log + line_bytes(line));
            &&& t.len() >= line_bytes(line).len()
            &&& t.subrange(t.len() - line_bytes(line).len(), t.len() as int) == line_bytes(line)
        }),
{
    let lb = line_bytes(line);
    let b = log + lb;
    if b.len() > MAX_LOG_BYTES {
        let cut = b.len() - MAX_LOG_BYTES;
        assert(b[log.len() - 1] == 0x0au8);
        lemma_newline_from(b, cut);
        let p = newline_from(b, cut).unwrap();
        assert(p <= log.len() - 1);
        let t = trimmed(b);
        assert(t =~= b.subrange(p + 1, b.len() as int));
        assert(t.subrange(t.len() - lb.len(), t.len() as int) =~= lb);
    } else {
        assert(b.subrange(b.len() - lb.len(), b.len() as int) =~= lb);
    }
}

/// The bytes of `line` followed by a line feed.
pub open spec fn line_bytes(line: Seq<char>) -> Seq<u8> {
    encode_utf8(line) + seq![0x0au8]
}

/// The UTF-8 encoding of a concatenation is the concatenation of the encodings.
pub proof fn lemma_encode_utf8_concat(a: Seq<char>, b: Seq<char>)
    ensures
        encode_utf8(a + b) == encode_utf8(a) + encode_utf8(b),
    decreases a.len(),
{
    if a.len() == 0 {
        assert(a + b =~= b);
    } else {
        lemma_encode_utf8_concat(a.drop_first(), b);
        assert((a + b).drop_first() =~= a.drop_first() + b);
        assert((a + b)[0] == a[0]);
    }
}

/// In valid UTF-8, the position after a line feed starts a character.
proof fn lemma_after_newline_is_boundary(b: Seq<u8>, p: int)
    requires
        valid_utf8(b),
        0 <= p < b.len(),
        b[p] == 0x0au8,
        is_char_boundary(b, p),
    ensures
        is_char_boundary(b, p + 1),
{
    is_char_boundary_start_end_of_seq(b);
    if p + 1 < b.len() {
        valid_utf8_split(b, p);
        let s = b.subrange(p, b.len() as int);
        assert(s[0] == 0x0au8);
        let r = s.subrange(1, s.len() as int);
        assert(vstd::utf8::pop_first_scalar(s) == r);
        assert(valid_utf8(r));
        is_char_boundary_start_end_of_seq(r);
        is_char_boundary_iff_not_is_continuation_byte(r, 0);
        assert(r[0] == b[p + 1]);
        is_char_boundary_iff_not_is_continuation_byte(b, p + 1);
    }
}

impl LogBuffer {
    /// The log's bytes.
    pub closed spec fn bytes(&self) -> Seq<u8> {
        encode_utf8(self.text@)
    }

    /// The log's text.
    pub closed spec fn text(&self) -> Seq<char> {
        self.text@
    }

    /// The log is empty or ends with a line feed, and is within its limit.
    pub open spec fn wf(&self) -> bool {
        ends_lines(self.bytes()) && self.bytes().len() <= MAX_LOG_BYTES
    }

    /// Every log the program holds is empty or ends with a line feed, and is
    /// within its limit.
    #[verifier::type_invariant]
    spec fn inv(self) -> bool {
        ends_lines(encode_utf8(self.text@)) && encode_utf8(self.text@).len() <= MAX_LOG_BYTES
    }

    pub proof fn lemma_bytes_text(&self)
        ensures
            self.bytes() == encode_utf8(self.text()),
    {
    }

    /// An empty log.
    pub fn new() -> (r: Self)
        ensures
            r.text() == Seq::<char>::empty(),
            r.bytes() == Seq::<u8>::empty(),
            r.wf(),
    {
        LogBuffer { text: String::new() }
    }

    /// Whether appending `line` would fail: the log would exceed its limit by
    /// an amount that ends inside a character.
    pub fn push_would_fail(&self, line: &str) -> (r: bool)
        ensures
            r == trim_fails(self.bytes() + line_bytes(line@)),
    {
        proof {
            reveal_strlit("\n");
            assert("\n"@ =~= seq!['\n']);
            assert(vstd::utf8::is_ascii_chars(seq!['\n']));
            vstd::utf8::is_ascii_chars_encode_utf8(seq!['\n']);
            assert(encode_utf8(seq!['\n']) =~= seq![0x0au8]);
            lemma_encode_utf8_concat(self.text@, line@);
            lemma_encode_utf8_concat(self.text@ + line@, "\n"@);
        }
        let candidate = self.text.clone().concat(line).concat("\n");
        assert(encode_utf8(candidate@) =~= self.bytes() + line_bytes(line@));
        let ghost cb = encode_utf8(candidate@);
        let len = candidate.as_str().as_bytes().len();
        if len > MAX_LOG_BYTES {
            let r = !candidate.as_str().is_char_boundary(len - MAX_LOG_BYTES);
            assert(r == !is_char_boundary(cb, cb.len() - MAX_LOG_BYTES));
            r
        } else {
            false
        }
    }

    /// Appends `line` and a line feed, then trims the log to the limit at a
    /// line boundary.
    pub fn push(&mut self, line: &str)
        requires
            !trim_fails(old(self).bytes() + line_bytes(line@)),
        ensures
            final(self).wf(),
            final(self).bytes() == trimmed(old(self).bytes() + line_bytes(line@)),
    {
        proof {
            reveal_strlit("\n");
            assert("\n"@ =~= seq!['\n']);
            assert(vstd::utf8::is_ascii_chars(seq!['\n']));
            vstd::utf8::is_ascii_chars_encode_utf8(seq!['\n']);
            assert(encode_utf8(seq!['\n']) =~= seq![0x0au8]);
            lemma_encode_utf8_concat(self.text@, line@);
            lemma_encode_utf8_concat(self.text@ + line@, "\n"@);
            use_type_invariant(&*self);
        }
        let mut text = String::new();
        std::mem::swap(&mut text, &mut self.text);
        text.append(line);
        text.append("\n");
        let ghost b = encode_utf8(text@);
        assert(b =~= old(self).bytes() + line_bytes(line@));
        proof {
            law_log_bounded(b);
            lemma_trimmed_ends_lines(b);
        }
        let bytes = text.as_str().as_bytes();
        let len = bytes.len();
        if len > MAX_LOG_BYTES {
            let cut = len - MAX_LOG_BYTES;
            let mut i = cut;
            while i < bytes.len()
                invariant
                    bytes@ == b,
                    cut <= i <= b.len(),
                    newline_from(b, cut as int) == newline_from(b, i as int),
                ensures
                    cut <= i <= b.len(),
                    newline_from(b, cut as int) == newline_from(b, i as int),
                    i < b.len() ==> b[i as int] == 0x0au8,
                decreases b.len() - i,
            {
                if bytes[i] == 0x0au8 {
                    break;
                }
                i = i + 1;
            }
            proof {
                lemma_newline_from(b, cut as int);
                encode_utf8_valid_utf8(text@);
            }
            let start = if i < bytes.len() {
                proof {
                    lemma_newline_from(b, i as int);
                    if i > cut {
                        assert(newline_from(b, cut as int) == Some(i as int));
                    }
                    lemma_after_newline_is_boundary_from(b, cut as int, i as int);
                }
                i + 1
            } else {
                cut
            };
            assert(start == trim_start(b));
            let (_, tail) = text.as_str().split_at(start);
            let kept = tail.to_owned();
            assert(encode_utf8(kept@) =~= b.subrange(start as int, b.len() as int));
            self.text = kept;
        } else {
            self.text = text;
        }
    }
}

/// A line feed found at `p`, scanning from a character boundary `cut`, is
/// followed by a character boundary.
proof fn lemma_after_newline_is_boundary_from(b: Seq<u8>, cut: int, p: int)
    requires
        valid_utf8(b),
        0 <= cut <= p < b.len(),
        b[p] == 0x0au8,
    ensures
        is_char_boundary(b, p + 1),
{
    vstd::utf8::is_char_boundary_iff_is_leading_byte(b, p);
    lemma_after_newline_is_boundary(b, p);
}

/// The line written to the log for a message: the time, the kind of
/// message, the message and where in the source it was written.
pub open spec fn spec_log_line(
    now: Seq<char>,
    log_type: Seq<char>,
    message: Seq<char>,
    file: Seq<char>,
    line: nat,
    column: nat,
) -> Seq<char> {
    now + seq![' ', ' '] + log_type + message + seq![' ', '['] + file + seq![':'] + decimal(line) + seq![':']
        + decimal(column) + seq![']']
}

/// Builds `spec_log_line`.
pub fn log_line(now: &str, log_type: &str, message: &str, file: &str, line: u32, column: u32) -> (r: String)
    ensures
        r@ == spec_log_line(now@, log_type@, message@, file@, line as nat, column as nat),
{
    proof {
        reveal_strlit("  ");
        reveal_strlit(" [");
        reveal_strlit(":");
        reveal_strlit("]");
    }
    now.to_owned().concat("  ").concat(log_type).concat(message).concat(" [").concat(file).concat(":").concat(
        to_decimal(line as usize).as_str(),
    ).concat(":").concat(to_decimal(column as usize).as_str()).concat("]")
}

/// The retained log.
pub fn get_logs(log: &LogBuffer) -> (r: String)
    ensures
        r@ == log.text(),
        ends_lines(encode_utf8(r@)),
        encode_utf8(r@).len() <= MAX_LOG_BYTES,
{
    proof {
        use_type_invariant(log);
    }
    log.text.clone()
}

/// The log with the user's name, real name and device name replaced by
/// placeholders.
pub open spec fn spec_anonymous_logs(
    text: Seq<char>,
    username: Seq<char>,
    realname: Seq<char>,
    devicename: Seq<char>,
) -> Seq<char> {
    replace_all(
        replace_all(replace_all(text, username, "username"@), realname, "Real Name"@),
        devicename,
        "devicename"@,
    )
}

/// The retained log with the user's name, real name and device name replaced
/// by placeholders.
pub fn get_anonymous_logs(log: &LogBuffer, username: &str, realname: &str, devicename: &str) -> (r: String)
    ensures
        r@ == spec_anonymous_logs(log.text(), username@, realname@, devicename@),
{
    let logs = replace(log.text.as_str(), username, "username");
    let logs = replace(logs.as_str(), realname, "Real Name");
    replace(logs.as_str(), devicename, "devicename")
}

} // verus!
