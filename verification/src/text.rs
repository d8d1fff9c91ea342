//! Text helpers: decimal numbers, removal of quotes, and substring
//! replacement, each against its specification.
use vstd::prelude::*;
use vstd::string::StrSliceExecFns;
use vstd::string::StringExecFns;

verus! {

/// The character of a decimal digit.
pub open spec fn digit_char(d: nat) -> char {
    if d == 0 {
        '0'
    } else if d == 1 {
        '1'
    } else if d == 2 {
        '2'
    } else if d == 3 {
        '3'
    } else if d == 4 {
        '4'
    } else if d == 5 {
        '5'
    } else if d == 6 {
        '6'
    } else if d == 7 {
        '7'
    } else if d == 8 {
        '8'
    } else {
        '9'
    }
}

/// The decimal representation of `n`, without leading zeros.
pub open spec fn decimal(n: nat) -> Seq<char>
    decreases n,
{
    if n < 10 {
        seq![digit_char(n)]
    } else {
        decimal(n / 10) + seq![digit_char(n % 10)]
    }
}

fn digit_str(d: usize) -> (r: &'static str)
    requires
        d < 10,
    ensures
        r@ == seq![digit_char(d as nat)],
{
    if d == 0 {
        proof {
            reveal_strlit("0");
        }
        "0"
    } else if d == 1 {
        proof {
            reveal_strlit("1");
        }
        "1"
    } else if d == 2 {
        proof {
            reveal_strlit("2");
        }
        "2"
    } else if d == 3 {
        proof {
            reveal_strlit("3");
        }
        "3"
    } else if d == 4 {
        proof {
            reveal_strlit("4");
        }
        "4"
    } else if d == 5 {
        proof {
            reveal_strlit("5");
        }
        "5"
    } else if d == 6 {
        proof {
            reveal_strlit("6");
        }
        "6"
    } else if d == 7 {
        proof {
            reveal_strlit("7");
        }
        "7"
    } else if d == 8 {
        proof {
            reveal_strlit("8");
        }
        "8"
    } else {
        proof {
            reveal_strlit("9");
        }
        "9"
    }
}

/// `n` written in decimal.
pub fn to_decimal(n: usize) -> (r: String)
    ensures
        r@ == decimal(n as nat),
    decreases n,
{
    if n < 10 {
        digit_str(n).to_owned()
    } else {
        let mut s = to_decimal(n / 10);
        s.append(digit_str(n % 10));
        s
    }
}

/// `s` without any double quote.
pub open spec fn without_quotes(s: Seq<char>) -> Seq<char> {
    s.filter(|c: char| c != '"')
}

/// `s` with every double quote removed.
pub fn remove_quotes(s: &str) -> (r: String)
    ensures
        r@ == without_quotes(s@),
{
    let len = s.unicode_len();
    let mut out = String::new();
    let mut segment_start: usize = 0;
    let mut i: usize = 0;
    proof {
        reveal_with_fuel(Seq::<_>::filter, 1);
    }
    assert(s@.subrange(0, 0) =~= Seq::<char>::empty());
    while i < len
        invariant
            len == s@.len(),
            segment_start <= i <= len,
            out@ + without_quotes(s@.subrange(segment_start as int, i as int)) == without_quotes(
                s@.subrange(0, i as int),
            ),
            without_quotes(s@.subrange(segment_start as int, i as int)) == s@.subrange(
                segment_start as int,
                i as int,
            ),
        decreases len - i,
    {
        let c = s.get_char(i);
        let ghost before = s@.subrange(0, i as int);
        assert(s@.subrange(0, i + 1) =~= before.push(c));
        assert(s@.subrange(segment_start as int, i + 1) =~= s@.subrange(
            segment_start as int,
            i as int,
        ).push(c));
        proof {
            lemma_filter_push(before, c);
            lemma_filter_push(s@.subrange(segment_start as int, i as int), c);
        }
        if c == '"' {
            let segment = s.substring_char(segment_start, i);
            out.append(segment);
            segment_start = i + 1;
            assert(s@.subrange(segment_start as int, i + 1) =~= Seq::<char>::empty());
            assert(without_quotes(Seq::<char>::empty()) =~= Seq::<char>::empty());
        }
        i = i + 1;
    }
    let segment = s.substring_char(segment_start, len);
    out.append(segment);
    assert(s@.subrange(0, len as int) =~= s@);
    proof {
        law_version_chars_are_digits_and_dots(s@);
    }
    out
}

/// Filtering a sequence with one more element.
pub proof fn lemma_filter_push(s: Seq<char>, c: char)
    ensures
        without_quotes(s.push(c)) == if c != '"' {
            without_quotes(s).push(c)
        } else {
            without_quotes(s)
        },
{
    reveal_with_fuel(Seq::<_>::filter, 1);
    assert(s.push(c).drop_last() =~= s);
}

/// `s` with every non-overlapping occurrence of `pat`, found from left to
/// right, replaced by `rep`. An empty pattern matches before every character
/// and at the end.
pub open spec fn replace_all(s: Seq<char>, pat: Seq<char>, rep: Seq<char>) -> Seq<char>
    decreases s.len(),
{
    if pat.len() == 0 {
        if s.len() == 0 {
            rep
        } else {
            rep + seq![s[0]] + replace_all(s.drop_first(), pat, rep)
        }
    } else if s.len() < pat.len() {
        s
    } else if s.subrange(0, pat.len() as int) == pat {
        rep + replace_all(s.skip(pat.len() as int), pat, rep)
    } else {
        seq![s[0]] + replace_all(s.drop_first(), pat, rep)
    }
}

/// `s` with every non-overlapping occurrence of `pat` replaced by `rep`.
pub fn replace(s: &str, pat: &str, rep: &str) -> (r: String)
    ensures
        r@ == replace_all(s@, pat@, rep@),
{
    let len = s.unicode_len();
    let plen = pat.unicode_len();
    let pattern = pat.to_owned();
    let mut out = String::new();
    assert(s@.skip(0) =~= s@);
    assert(out@ + replace_all(s@, pat@, rep@) =~= replace_all(s@, pat@, rep@));
    if plen == 0 {
        let mut i: usize = 0;
        while i < len
            invariant
                len == s@.len(),
                pat@.len() == 0,
                i <= len,
                out@ + replace_all(s@.skip(i as int), pat@, rep@) == replace_all(s@, pat@, rep@),
            decreases len - i,
        {
            out.append(rep);
            out.append(s.substring_char(i, i + 1));
            assert(s@.skip(i as int).drop_first() =~= s@.skip(i + 1));
            assert(s@.subrange(i as int, i + 1) =~= seq![s@.skip(i as int)[0]]);
            i = i + 1;
        }
        out.append(rep);
        assert(s@.skip(len as int) =~= Seq::<char>::empty());
        return out;
    }
    let mut segment_start: usize = 0;
    let mut i: usize = 0;
    assert(s@.skip(0) =~= s@);
    while i < len && plen <= len - i
        invariant
            len == s@.len(),
            plen == pat@.len(),
            plen > 0,
            pattern@ == pat@,
            segment_start <= i <= len,
            out@ + s@.subrange(segment_start as int, i as int) + replace_all(s@.skip(i as int), pat@, rep@)
                == replace_all(s@, pat@, rep@),
        decreases len - i,
    {
        let window = s.substring_char(i, i + plen).to_owned();
        let ghost rest = s@.skip(i as int);
        assert(rest.subrange(0, plen as int) =~= s@.subrange(i as int, i + plen));
        if window == pattern {
            out.append(s.substring_char(segment_start, i));
            out.append(rep);
            assert(rest.skip(plen as int) =~= s@.skip(i + plen));
            i = i + plen;
            segment_start = i;
            assert(s@.subrange(segment_start as int, i as int) =~= Seq::<char>::empty());
        } else {
            assert(rest.drop_first() =~= s@.skip(i + 1));
            assert(s@.subrange(segment_start as int, i + 1) =~= s@.subrange(segment_start as int, i as int).push(rest[0]));
            i = i + 1;
        }
    }
    out.append(s.substring_char(segment_start, len));
    assert(s@.subrange(segment_start as int, i as int) + s@.skip(i as int) =~= s@.subrange(segment_start as int, len as int));
    out
}

/// A decimal digit or a dot.
pub open spec fn is_version_char(c: char) -> bool {
    ('0' <= c && c <= '9') || c == '.'
}

/// `s` without the characters that are neither decimal digits nor dots.
pub open spec fn version_chars(s: Seq<char>) -> Seq<char> {
    s.filter(|c: char| is_version_char(c))
}

/// Keeping the version characters of a sequence with one more character.
pub proof fn lemma_version_chars_push(s: Seq<char>, c: char)
    ensures
        version_chars(s.push(c)) == if is_version_char(c) {
            version_chars(s).push(c)
        } else {
            version_chars(s)
        },
{
    reveal_with_fuel(Seq::<_>::filter, 1);
    assert(s.push(c).drop_last() =~= s);
}

/// A version keeps, in order, exactly its characters that are decimal digits
/// '0' to '9' (`char::is_digit(10)`) or dots; a single character is kept
/// exactly when it is one of them.
pub proof fn law_version_chars_are_digits_and_dots(s: Seq<char>)
    ensures
        version_chars(s) == s.filter(|c: char| ('0' <= c && c <= '9') || c == '.'),
        forall|c: char|
            #[trigger] version_chars(seq![c]) == (if ('0' <= c && c <= '9') || c == '.' {
                seq![c]
            } else {
                Seq::<char>::empty()
            }),
{
    assert((|c: char| is_version_char(c)) =~= (|c: char| ('0' <= c && c <= '9') || c == '.'));
    assert forall|c: char|
        #[trigger] version_chars(seq![c]) == (if ('0' <= c && c <= '9') || c == '.' {
            seq![c]
        } else {
            Seq::<char>::empty()
        }) by {
        lemma_version_chars_push(Seq::<char>::empty(), c);
        reveal_with_fuel(Seq::<_>::filter, 1);
        assert(Seq::<char>::empty().push(c) =~= seq![c]);
    }
}

/// `s` keeping only its decimal digits and dots.
pub fn keep_version_chars(s: &str) -> (r: String)
    ensures
        r@ == version_chars(s@),
        r@ == s@.filter(|c: char| ('0' <= c && c <= '9') || c == '.'),
{
    let len = s.unicode_len();
    let mut out = String::new();
    let mut segment_start: usize = 0;
    let mut i: usize = 0;
    proof {
        reveal_with_fuel(Seq::<_>::filter, 1);
    }
    assert(s@.subrange(0, 0) =~= Seq::<char>::empty());
    while i < len
        invariant
            len == s@.len(),
            segment_start <= i <= len,
            out@ + version_chars(s@.subrange(segment_start as int, i as int)) == version_chars(
                s@.subrange(0, i as int),
            ),
            version_chars(s@.subrange(segment_start as int, i as int)) == s@.subrange(
                segment_start as int,
                i as int,
            ),
        decreases len - i,
    {
        let c = s.get_char(i);
        let ghost before = s@.subrange(0, i as int);
        assert(s@.subrange(0, i + 1) =~= before.push(c));
        assert(s@.subrange(segment_start as int, i + 1) =~= s@.subrange(
            segment_start as int,
            i as int,
        ).push(c));
        proof {
            lemma_version_chars_push(before, c);
            lemma_version_chars_push(s@.subrange(segment_start as int, i as int), c);
        }
        if !(('0' <= c && c <= '9') || c == '.') {
            let segment = s.substring_char(segment_start, i);
            out.append(segment);
            segment_start = i + 1;
            assert(s@.subrange(segment_start as int, i + 1) =~= Seq::<char>::empty());
            assert(version_chars(Seq::<char>::empty()) =~= Seq::<char>::empty());
        }
        i = i + 1;
    }
    let segment = s.substring_char(segment_start, len);
    out.append(segment);
    assert(s@.subrange(0, len as int) =~= s@);
    proof {
        law_version_chars_are_digits_and_dots(s@);
    }
    out
}

/// `pat` occurs in `s`.
pub open spec fn contains_text(s: Seq<char>, pat: Seq<char>) -> bool {
    exists|i: int| 0 <= i && i + pat.len() <= s.len() && #[trigger] s.subrange(i, i + pat.len()) == pat
}

/// Whether `pat` occurs in `s`.
pub fn text_contains(s: &str, pat: &str) -> (r: bool)
    ensures
        r == contains_text(s@, pat@),
{
    let len = s.unicode_len();
    let plen = pat.unicode_len();
    let pattern = pat.to_owned();
    if plen > len {
        return false;
    }
    if plen == 0 {
        assert(s@.subrange(0int, 0int + pat@.len()) =~= pat@);
        return true;
    }
    let mut i: usize = 0;
    while i <= len - plen
        invariant
            len == s@.len(),
            plen == pat@.len(),
            0 < plen <= len,
            i <= len - plen + 1,
            pattern@ == pat@,
            forall|j: int| 0 <= j < i ==> #[trigger] s@.subrange(j, j + pat@.len()) != pat@,
        decreases len - i,
    {
        let window = s.substring_char(i, i + plen).to_owned();
        if window == pattern {
            return true;
        }
        i = i + 1;
    }
    false
}

/// `s` in lower case, as std's `str::to_lowercase` maps it through
/// Unicode's lower-case mapping (a final capital sigma by its place in the
/// word); it depends on `s` alone.
pub uninterp spec fn lowercase(s: Seq<char>) -> Seq<char>;

/// Calls `str::to_lowercase`. Claimed: the result is `lowercase(s)`.
#[verifier::external_body]
pub(crate) fn to_lowercase(s: &str) -> (r: String)
    ensures
        r@ == lowercase(s@),
{
    s.to_lowercase()
}

} // verus!
