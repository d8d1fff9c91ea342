use vstd::prelude::*;
use vstd::utf8::encode_utf8;
use vstd::utf8::is_ascii_chars;
use vstd::utf8::is_ascii_chars_encode_utf8;

verus! {

/// `needle` occurs in `haystack` starting at index `i`.
pub open spec fn occurs_at(haystack: Seq<u8>, needle: Seq<u8>, i: int) -> bool {
    &&& 0 <= i
    &&& i + needle.len() <= haystack.len()
    &&& haystack.subrange(i, i + needle.len()) == needle
}

/// `needle` occurs somewhere in `haystack`.
pub open spec fn occurs_in(haystack: Seq<u8>, needle: Seq<u8>) -> bool {
    exists|i: int| occurs_at(haystack, needle, i)
}

/// The first index from `start` on at which `needle` occurs in `haystack`.
pub open spec fn occurrence_from(haystack: Seq<u8>, needle: Seq<u8>, start: int) -> Option<int>
    decreases haystack.len() + 1 - start,
{
    if start < 0 || start + needle.len() > haystack.len() {
        None
    } else if occurs_at(haystack, needle, start) {
        Some(start)
    } else {
        occurrence_from(haystack, needle, start + 1)
    }
}

/// The first index at which `needle` occurs in `haystack`, if any.
pub open spec fn first_occurrence(haystack: Seq<u8>, needle: Seq<u8>) -> Option<int> {
    occurrence_from(haystack, needle, 0)
}

/// `occurrence_from` finds the first occurrence at or after `start`.
pub proof fn lemma_occurrence_from(haystack: Seq<u8>, needle: Seq<u8>, start: int)
    requires
        0 <= start,
    ensures
        match occurrence_from(haystack, needle, start) {
            Some(i) => start <= i && occurs_at(haystack, needle, i) && forall|j: int|
                start <= j < i ==> !occurs_at(haystack, needle, j),
            None => forall|j: int| start <= j ==> !occurs_at(haystack, needle, j),
        },
    decreases haystack.len() + 1 - start,
{
    if start + needle.len() <= haystack.len() && !occurs_at(haystack, needle, start) {
        lemma_occurrence_from(haystack, needle, start + 1);
    }
}

/// The first occurrence is an occurrence, no earlier index is one, and there
/// is none at all exactly when `first_occurrence` is `None`.
pub proof fn lemma_first_occurrence(haystack: Seq<u8>, needle: Seq<u8>)
    ensures
        match first_occurrence(haystack, needle) {
            Some(i) => occurs_at(haystack, needle, i) && forall|j: int|
                0 <= j < i ==> !occurs_at(haystack, needle, j),
            None => !occurs_in(haystack, needle),
        },
{
    lemma_occurrence_from(haystack, needle, 0);
}

fn matches_at(haystack: &[u8], needle: &[u8], start: usize) -> (r: bool)
    requires
        start + needle@.len() <= haystack@.len(),
    ensures
        r == occurs_at(haystack@, needle@, start as int),
{
    let _haystack_len = haystack.len();
    let mut k: usize = 0;
    while k < needle.len()
        invariant
            k <= needle@.len(),
            start + needle@.len() <= haystack@.len(),
            haystack@.len() <= usize::MAX,
            forall|m: int| 0 <= m < k ==> haystack@[start + m] == needle@[m],
        decreases needle@.len() - k,
    {
        if haystack[start + k] != needle[k] {
            assert(haystack@.subrange(start as int, start + needle@.len())[k as int] != needle@[k as int]);
            return false;
        }
        k = k + 1;
    }
    assert(haystack@.subrange(start as int, start + needle@.len()) =~= needle@);
    true
}

/// Index of the first window of `haystack` that equals `needle`.
/// `needle` must not be empty (a window of size zero does not exist).
pub fn bytes_search(haystack: Vec<u8>, needle: &[u8]) -> (r: Option<usize>)
    requires
        needle@.len() > 0,
    ensures
        match r {
            Some(i) => first_occurrence(haystack@, needle@) == Some(i as int),
            None => first_occurrence(haystack@, needle@) is None,
        },
{
    let n = needle.len();
    let h = haystack.len();
    if n > h {
        return None;
    }
    let mut i: usize = 0;
    while i <= h - n
        invariant
            n == needle@.len(),
            h == haystack@.len(),
            n > 0,
            n <= h,
            first_occurrence(haystack@, needle@) == occurrence_from(haystack@, needle@, i as int),
        decreases h - i,
    {
        if matches_at(haystack.as_slice(), needle, i) {
            return Some(i);
        }
        i = i + 1;
    }
    None
}

/// `needle` occurs somewhere in `haystack`. `needle` must not be empty (a
/// window of size zero does not exist).
pub fn bytes_contains(haystack: &[u8], needle: &[u8]) -> (r: bool)
    requires
        needle@.len() > 0,
    ensures
        r == occurs_in(haystack@, needle@),
{
    proof {
        lemma_first_occurrence(haystack@, needle@);
    }
    let n = needle.len();
    let h = haystack.len();
    if n > h {
        return false;
    }
    let mut i: usize = 0;
    while i <= h - n
        invariant
            n == needle@.len(),
            h == haystack@.len(),
            n > 0,
            n <= h,
            first_occurrence(haystack@, needle@) == occurrence_from(haystack@, needle@, i as int),
            match first_occurrence(haystack@, needle@) {
                Some(i) => occurs_at(haystack@, needle@, i),
                None => !occurs_in(haystack@, needle@),
            },
        decreases h - i,
    {
        if matches_at(haystack, needle, i) {
            return true;
        }
        i = i + 1;
    }
    false
}

/// A file header that marks where an asset starts inside a cached file.
#[derive(Clone, Copy, PartialEq, Eq, Structural, Debug)]
pub enum Header {
    OggS,
    Id3,
    Png,
    Webp,
    Ktx,
    Roblox,
    /// The blank second header of the categories that have a single one.
    Blank,
}

impl Header {
    /// The bytes that identify the header.
    pub open spec fn spec_bytes(self) -> Seq<u8> {
        match self {
            Header::OggS => seq![0x4fu8, 0x67u8, 0x67u8, 0x53u8],
            Header::Id3 => seq![0x49u8, 0x44u8, 0x33u8],
            Header::Png => seq![0x50u8, 0x4eu8, 0x47u8],
            Header::Webp => seq![0x57u8, 0x45u8, 0x42u8, 0x50u8],
            Header::Ktx => seq![0x4bu8, 0x54u8, 0x58u8],
            Header::Roblox => seq![0x3cu8, 0x72u8, 0x6fu8, 0x62u8, 0x6cu8, 0x6fu8, 0x78u8, 0x21u8],
            Header::Blank => seq![],
        }
    }

    /// The header's name, which is its bytes read as text.
    pub open spec fn spec_name(self) -> Seq<char> {
        match self {
            Header::OggS => seq!['O', 'g', 'g', 'S'],
            Header::Id3 => seq!['I', 'D', '3'],
            Header::Png => seq!['P', 'N', 'G'],
            Header::Webp => seq!['W', 'E', 'B', 'P'],
            Header::Ktx => seq!['K', 'T', 'X'],
            Header::Roblox => seq!['<', 'r', 'o', 'b', 'l', 'o', 'x', '!'],
            Header::Blank => seq![],
        }
    }

    /// File extension for assets found by this header.
    pub open spec fn spec_extension(self) -> Option<Seq<char>> {
        match self {
            Header::OggS => Some(seq!['.', 'o', 'g', 'g']),
            Header::Id3 => Some(seq!['.', 'm', 'p', '3']),
            Header::Png => Some(seq!['.', 'p', 'n', 'g']),
            Header::Webp => Some(seq!['.', 'w', 'e', 'b', 'p']),
            Header::Ktx => Some(seq!['.', 'k', 't', 'x']),
            Header::Roblox => Some(seq!['.', 'r', 'b', 'x', 'm']),
            Header::Blank => None,
        }
    }

    /// How many bytes before the found header the asset starts.
    pub open spec fn spec_offset(self) -> nat {
        match self {
            Header::Png => 1,
            Header::Ktx => 1,
            Header::Webp => 8,
            _ => 0,
        }
    }

    pub fn bytes(&self) -> (r: Vec<u8>)
        ensures
            r@ == self.spec_bytes(),
    {
        let r = match self {
            Header::OggS => vec![0x4fu8, 0x67u8, 0x67u8, 0x53u8],
            Header::Id3 => vec![0x49u8, 0x44u8, 0x33u8],
            Header::Png => vec![0x50u8, 0x4eu8, 0x47u8],
            Header::Webp => vec![0x57u8, 0x45u8, 0x42u8, 0x50u8],
            Header::Ktx => vec![0x4bu8, 0x54u8, 0x58u8],
            Header::Roblox => vec![0x3cu8, 0x72u8, 0x6fu8, 0x62u8, 0x6cu8, 0x6fu8, 0x78u8, 0x21u8],
            Header::Blank => Vec::new(),
        };
        assert(r@ =~= self.spec_bytes());
        r
    }

    /// The extension of the files found by this header.
    pub fn extension(&self) -> (r: Option<String>)
        ensures
            match self.spec_extension() {
                Some(e) => r matches Some(x) && x@ == e,
                None => r is None,
            },
    {
        proof {
            reveal_strlit(".ogg");
            reveal_strlit(".mp3");
            reveal_strlit(".png");
            reveal_strlit(".webp");
            reveal_strlit(".ktx");
            reveal_strlit(".rbxm");
        }
        match self {
            Header::OggS => Some(".ogg".to_owned()),
            Header::Id3 => Some(".mp3".to_owned()),
            Header::Png => Some(".png".to_owned()),
            Header::Webp => Some(".webp".to_owned()),
            Header::Ktx => Some(".ktx".to_owned()),
            Header::Roblox => Some(".rbxm".to_owned()),
            Header::Blank => None,
        }
    }

    pub fn name(&self) -> (r: String)
        ensures
            r@ == self.spec_name(),
    {
        match self {
            Header::OggS => {
                proof {
                    reveal_strlit("OggS");
                }
                "OggS".to_owned()
            },
            Header::Id3 => {
                proof {
                    reveal_strlit("ID3");
                }
                "ID3".to_owned()
            },
            Header::Png => {
                proof {
                    reveal_strlit("PNG");
                }
                "PNG".to_owned()
            },
            Header::Webp => {
                proof {
                    reveal_strlit("WEBP");
                }
                "WEBP".to_owned()
            },
            Header::Ktx => {
                proof {
                    reveal_strlit("KTX");
                }
                "KTX".to_owned()
            },
            Header::Roblox => {
                proof {
                    reveal_strlit("<roblox!");
                }
                "<roblox!".to_owned()
            },
            Header::Blank => {
                proof {
                    reveal_strlit("");
                }
                "".to_owned()
            },
        }
    }

    pub fn offset(&self) -> (r: usize)
        ensures
            r == self.spec_offset(),
    {
        match self {
            Header::Png => 1,
            Header::Ktx => 1,
            Header::Webp => 8,
            _ => 0,
        }
    }
}

/// Name of the category whose files are listed without looking at headers.
pub open spec fn music_mode() -> Seq<char> {
    seq!['M', 'u', 's', 'i', 'c']
}

pub open spec fn sounds_mode() -> Seq<char> {
    seq!['S', 'o', 'u', 'n', 'd', 's']
}

pub open spec fn images_mode() -> Seq<char> {
    seq!['I', 'm', 'a', 'g', 'e', 's']
}

pub open spec fn ktx_mode() -> Seq<char> {
    seq!['K', 'T', 'X', ' ', 'f', 'i', 'l', 'e', 's']
}

pub open spec fn rbxm_mode() -> Seq<char> {
    seq!['R', 'B', 'X', 'M', ' ', 'f', 'i', 'l', 'e', 's']
}

/// What `find_header` answers when no header of the category occurs.
pub open spec fn invalid_header() -> Seq<char> {
    seq!['I', 'N', 'V', 'A', 'L', 'I', 'D']
}

/// The headers of each category, in the order in which they are tried; no
/// headers for a name that is not a category.
pub open spec fn mode_headers(mode: Seq<char>) -> Seq<Header> {
    if mode == sounds_mode() {
        seq![Header::OggS, Header::Id3]
    } else if mode == images_mode() {
        seq![Header::Png, Header::Webp]
    } else if mode == ktx_mode() {
        seq![Header::Ktx, Header::Blank]
    } else if mode == rbxm_mode() {
        seq![Header::Roblox, Header::Blank]
    } else {
        seq![]
    }
}

/// The category names, as the categories of `mode_headers` and the music one.
pub fn mode_name(which: u8) -> (r: String)
    requires
        which < 5,
    ensures
        which == 0 ==> r@ == music_mode(),
        which == 1 ==> r@ == sounds_mode(),
        which == 2 ==> r@ == images_mode(),
        which == 3 ==> r@ == ktx_mode(),
        which == 4 ==> r@ == rbxm_mode(),
{
    if which == 0 {
        proof {
            reveal_strlit("Music");
        }
        "Music".to_owned()
    } else if which == 1 {
        proof {
            reveal_strlit("Sounds");
        }
        "Sounds".to_owned()
    } else if which == 2 {
        proof {
            reveal_strlit("Images");
        }
        "Images".to_owned()
    } else if which == 3 {
        proof {
            reveal_strlit("KTX files");
        }
        "KTX files".to_owned()
    } else {
        proof {
            reveal_strlit("RBXM files");
        }
        "RBXM files".to_owned()
    }
}

/// The headers of a category.
pub fn headers_for_mode(mode: &String) -> (r: Vec<Header>)
    ensures
        r@ == mode_headers(mode@),
{
    let r = if *mode == mode_name(1) {
        vec![Header::OggS, Header::Id3]
    } else if *mode == mode_name(2) {
        vec![Header::Png, Header::Webp]
    } else if *mode == mode_name(3) {
        vec![Header::Ktx, Header::Blank]
    } else if *mode == mode_name(4) {
        vec![Header::Roblox, Header::Blank]
    } else {
        Vec::new()
    };
    assert(r@ =~= mode_headers(mode@));
    r
}

/// The first of `headers[start..]` that occurs in `bytes`.
pub open spec fn first_found(headers: Seq<Header>, bytes: Seq<u8>, start: int) -> Option<Header>
    decreases headers.len() - start,
{
    if start < 0 || start >= headers.len() {
        None
    } else if occurs_in(bytes, headers[start].spec_bytes()) {
        Some(headers[start])
    } else {
        first_found(headers, bytes, start + 1)
    }
}

/// Trying `headers[start..]` in order reaches the blank header, whose empty
/// window cannot be searched for.
pub open spec fn reaches_blank(headers: Seq<Header>, bytes: Seq<u8>, start: int) -> bool
    decreases headers.len() - start,
{
    if start < 0 || start >= headers.len() {
        false
    } else if headers[start] == Header::Blank {
        true
    } else if occurs_in(bytes, headers[start].spec_bytes()) {
        false
    } else {
        reaches_blank(headers, bytes, start + 1)
    }
}

/// The header `find_header` finds for a category, if any.
pub open spec fn spec_find_header(mode: Seq<char>, bytes: Seq<u8>) -> Option<Header> {
    first_found(mode_headers(mode), bytes, 0)
}

/// `find_header` would try to search for the blank header.
pub open spec fn find_header_fails(mode: Seq<char>, bytes: Seq<u8>) -> bool {
    reaches_blank(mode_headers(mode), bytes, 0)
}

/// The first header of the category that occurs in `bytes`.
pub fn find_header_kind(mode: &String, bytes: &[u8]) -> (r: Option<Header>)
    requires
        !find_header_fails(mode@, bytes@),
    ensures
        r == spec_find_header(mode@, bytes@),
{
    let headers = headers_for_mode(mode);
    let mut i: usize = 0;
    while i < headers.len()
        invariant
            i <= headers@.len(),
            headers@ == mode_headers(mode@),
            first_found(headers@, bytes@, 0) == first_found(headers@, bytes@, i as int),
            reaches_blank(headers@, bytes@, 0) == reaches_blank(headers@, bytes@, i as int),
            !reaches_blank(headers@, bytes@, 0),
        decreases headers@.len() - i,
    {
        let header = headers[i];
        let needle = header.bytes();
        if bytes_contains(bytes, needle.as_slice()) {
            return Some(header);
        }
        i = i + 1;
    }
    None
}

/// Whether `find_header` would fail on these inputs (it searches for the
/// blank header of a category whose first header does not occur).
pub fn find_header_would_fail(mode: &String, bytes: &[u8]) -> (r: bool)
    ensures
        r == find_header_fails(mode@, bytes@),
{
    let headers = headers_for_mode(mode);
    let mut i: usize = 0;
    while i < headers.len()
        invariant
            i <= headers@.len(),
            headers@ == mode_headers(mode@),
            reaches_blank(headers@, bytes@, 0) == reaches_blank(headers@, bytes@, i as int),
        decreases headers@.len() - i,
    {
        let header = headers[i];
        if header == Header::Blank {
            return true;
        }
        let needle = header.bytes();
        if bytes_contains(bytes, needle.as_slice()) {
            return false;
        }
        i = i + 1;
    }
    false
}

/// Name of the first header of the category `mode` that occurs in `bytes`,
/// or "INVALID".
pub fn find_header(mode: String, bytes: Vec<u8>) -> (r: String)
    requires
        !find_header_fails(mode@, bytes@),
    ensures
        r@ == match spec_find_header(mode@, bytes@) {
            Some(h) => h.spec_name(),
            None => invalid_header(),
        },
{
    match find_header_kind(&mode, bytes.as_slice()) {
        Some(h) => h.name(),
        None => {
            proof {
                reveal_strlit("INVALID");
            }
            "INVALID".to_owned()
        },
    }
}

/// The UTF-8 encoding of each header's name is the header's bytes.
pub proof fn lemma_header_name_bytes(h: Header)
    ensures
        encode_utf8(h.spec_name()) == h.spec_bytes(),
{
    let name = h.spec_name();
    assert(is_ascii_chars(name));
    is_ascii_chars_encode_utf8(name);
    assert(encode_utf8(name) =~= h.spec_bytes());
}

/// A header's offset is the offset looked up by its name.
pub proof fn lemma_name_offset(h: Header)
    requires
        h != Header::Blank,
    ensures
        name_offset(h.spec_name()) == h.spec_offset(),
{
    assert(Header::Png.spec_name() != Header::Ktx.spec_name());
    assert(Header::Png.spec_name() != Header::Webp.spec_name());
    assert(Header::Ktx.spec_name() != Header::Webp.spec_name());
    match h {
        Header::OggS => {
            assert(h.spec_name()[0] == 'O');
        },
        Header::Id3 => {
            assert(h.spec_name()[0] == 'I');
        },
        Header::Roblox => {
            assert(h.spec_name()[0] == '<');
        },
        _ => {},
    }
}

/// `first_found` gives a header of the list from `start` on that occurs,
/// none before it occurs, and nothing when none of them occurs.
pub proof fn lemma_first_found(headers: Seq<Header>, bytes: Seq<u8>, start: int)
    requires
        0 <= start,
    ensures
        match first_found(headers, bytes, start) {
            Some(h) => exists|k: int|
                start <= k < headers.len() && headers[k] == h && occurs_in(bytes, h.spec_bytes()) && forall|j: int|
                    start <= j < k ==> !occurs_in(bytes, #[trigger] headers[j].spec_bytes()),
            None => forall|j: int| start <= j < headers.len() ==> !occurs_in(bytes, #[trigger] headers[j].spec_bytes()),
        },
    decreases headers.len() - start,
{
    if start < headers.len() && !occurs_in(bytes, headers[start].spec_bytes()) {
        lemma_first_found(headers, bytes, start + 1);
        match first_found(headers, bytes, start + 1) {
            Some(h) => {
                let k = choose|k: int|
                    start + 1 <= k < headers.len() && headers[k] == h && occurs_in(bytes, h.spec_bytes()) && forall|
                        j: int,
                    |
                        start + 1 <= j < k ==> !occurs_in(bytes, #[trigger] headers[j].spec_bytes());
                assert(start <= k < headers.len() && headers[k] == h && occurs_in(bytes, h.spec_bytes())
                    && forall|j: int| start <= j < k ==> !occurs_in(bytes, #[trigger] headers[j].spec_bytes()));
            },
            None => {},
        }
    }
}

/// The header found for a category is one of the category's headers, it
/// occurs in the file, and no header listed before it does; when none is
/// found, none of the category's headers occurs.
pub proof fn law_found_header_occurs(mode: Seq<char>, bytes: Seq<u8>)
    ensures
        match spec_find_header(mode, bytes) {
            Some(h) => exists|k: int|
                0 <= k < mode_headers(mode).len() && mode_headers(mode)[k] == h && occurs_in(bytes, h.spec_bytes())
                    && forall|j: int| 0 <= j < k ==> !occurs_in(bytes, #[trigger] mode_headers(mode)[j].spec_bytes()),
            None => forall|j: int|
                0 <= j < mode_headers(mode).len() ==> !occurs_in(bytes, #[trigger] mode_headers(mode)[j].spec_bytes()),
        },
{
    lemma_first_found(mode_headers(mode), bytes, 0);
}

/// The asset extracted at a header starts its offset before the header: the
/// header's bytes sit exactly `offset` bytes into what is extracted.
pub proof fn law_extracted_holds_header(h: Header, bytes: Seq<u8>)
    requires
        h != Header::Blank,
        occurs_in(bytes, h.spec_bytes()),
        !extract_bytes_fails(h.spec_name(), bytes),
    ensures
        occurs_at(spec_extract_bytes(h.spec_name(), bytes), h.spec_bytes(), h.spec_offset() as int),
{
    lemma_header_name_bytes(h);
    lemma_name_offset(h);
    lemma_first_occurrence(bytes, h.spec_bytes());
    let i = first_occurrence(bytes, h.spec_bytes()).unwrap();
    let e = spec_extract_bytes(h.spec_name(), bytes);
    let k = h.spec_offset() as int;
    assert(e =~= bytes.subrange(i - k, bytes.len() as int));
    assert(e.subrange(k, k + h.spec_bytes().len()) =~= bytes.subrange(i, i + h.spec_bytes().len()));
}

/// An asset runs from its header, moved back by the header's offset, to the
/// end of the file, whatever follows the header: an Ogg sound, whose every
/// page starts with the header, keeps all its pages.
pub proof fn law_extract_runs_to_end(h: Header, bytes: Seq<u8>, i: int)
    requires
        h != Header::Blank,
        occurs_at(bytes, h.spec_bytes(), i),
        forall|j: int| 0 <= j < i ==> !occurs_at(bytes, h.spec_bytes(), j),
        i >= h.spec_offset(),
    ensures
        spec_extract_bytes(h.spec_name(), bytes) == bytes.subrange(i - h.spec_offset(), bytes.len() as int),
        spec_extract_bytes(h.spec_name(), bytes).len() == bytes.len() - (i - h.spec_offset()),
{
    lemma_header_name_bytes(h);
    lemma_name_offset(h);
    lemma_first_occurrence(bytes, h.spec_bytes());
    match first_occurrence(bytes, h.spec_bytes()) {
        Some(k) => {
            if k < i {
                assert(!occurs_at(bytes, h.spec_bytes(), k));
            }
            if k > i {
                assert(!occurs_at(bytes, h.spec_bytes(), i));
            }
        },
        None => {
            assert(occurs_in(bytes, h.spec_bytes()));
        },
    }
}

/// What is extracted for any header name is the end of the file: its bytes
/// from some index on to the last one.
pub proof fn law_extract_is_file_end(name: Seq<char>, bytes: Seq<u8>)
    requires
        !extract_bytes_fails(name, bytes),
    ensures
        exists|k: int|
            0 <= k <= bytes.len() && spec_extract_bytes(name, bytes) == #[trigger] bytes.subrange(k, bytes.len() as int),
{
    lemma_first_occurrence(bytes, encode_utf8(name));
    match first_occurrence(bytes, encode_utf8(name)) {
        Some(i) => {
            let k = i - name_offset(name);
            assert(spec_extract_bytes(name, bytes) == bytes.subrange(k, bytes.len() as int));
        },
        None => {
            assert(bytes.subrange(0, bytes.len() as int) =~= bytes);
        },
    }
}

/// How many bytes before a found header the asset starts, by header name.
pub open spec fn name_offset(name: Seq<char>) -> nat {
    if name == Header::Png.spec_name() {
        1
    } else if name == Header::Ktx.spec_name() {
        1
    } else if name == Header::Webp.spec_name() {
        8
    } else {
        0
    }
}

/// File extension by header name; none for a name that is not a header's.
pub open spec fn name_extension(name: Seq<char>) -> Option<Seq<char>> {
    if name == Header::OggS.spec_name() {
        Header::OggS.spec_extension()
    } else if name == Header::Id3.spec_name() {
        Header::Id3.spec_extension()
    } else if name == Header::Png.spec_name() {
        Header::Png.spec_extension()
    } else if name == Header::Webp.spec_name() {
        Header::Webp.spec_extension()
    } else if name == Header::Ktx.spec_name() {
        Header::Ktx.spec_extension()
    } else if name == Header::Roblox.spec_name() {
        Header::Roblox.spec_extension()
    } else {
        None
    }
}

/// The bytes of the asset that starts at the header named `name`: from the
/// first occurrence of the header, moved back by its offset, to the end; all
/// of `bytes` when the header does not occur.
pub open spec fn spec_extract_bytes(name: Seq<char>, bytes: Seq<u8>) -> Seq<u8> {
    match first_occurrence(bytes, encode_utf8(name)) {
        Some(i) => bytes.subrange(i - name_offset(name), bytes.len() as int),
        None => bytes,
    }
}

/// `extract_bytes` cannot work on these inputs: the name is empty (a window
/// of size zero does not exist) or the header is found closer to the start
/// than its offset.
pub open spec fn extract_bytes_fails(name: Seq<char>, bytes: Seq<u8>) -> bool {
    name.len() == 0 || match first_occurrence(bytes, encode_utf8(name)) {
        Some(i) => i < name_offset(name),
        None => false,
    }
}

fn header_offset_by_name(name: &String) -> (r: usize)
    ensures
        r == name_offset(name@),
{
    if *name == Header::Png.name() {
        1
    } else if *name == Header::Ktx.name() {
        1
    } else if *name == Header::Webp.name() {
        8
    } else {
        0
    }
}

/// File extension for the header named `name`.
pub fn extension_by_name(name: &String) -> (r: Option<String>)
    ensures
        match r {
            Some(e) => name_extension(name@) == Some(e@),
            None => name_extension(name@) is None,
        },
{
    if *name == Header::OggS.name() {
        proof {
            reveal_strlit(".ogg");
        }
        Some(".ogg".to_owned())
    } else if *name == Header::Id3.name() {
        proof {
            reveal_strlit(".mp3");
        }
        Some(".mp3".to_owned())
    } else if *name == Header::Png.name() {
        proof {
            reveal_strlit(".png");
        }
        Some(".png".to_owned())
    } else if *name == Header::Webp.name() {
        proof {
            reveal_strlit(".webp");
        }
        Some(".webp".to_owned())
    } else if *name == Header::Ktx.name() {
        proof {
            reveal_strlit(".ktx");
        }
        Some(".ktx".to_owned())
    } else if *name == Header::Roblox.name() {
        proof {
            reveal_strlit(".rbxm");
        }
        Some(".rbxm".to_owned())
    } else {
        None
    }
}

/// The bytes of the asset that starts at the header named `header`; all of
/// `bytes` when the header does not occur.
pub fn extract_bytes(header: String, bytes: Vec<u8>) -> (r: Vec<u8>)
    requires
        !extract_bytes_fails(header@, bytes@),
    ensures
        r@ == spec_extract_bytes(header@, bytes@),
        r@.len() <= bytes@.len(),
        r@ == bytes@.subrange(bytes@.len() - r@.len(), bytes@.len() as int),
{
    let needle = header.as_str().as_bytes();
    assert(needle@.len() > 0) by {
        assert(encode_utf8(header@) == vstd::utf8::encode_scalar(header@[0] as u32) + encode_utf8(
            header@.drop_first(),
        ));
    }
    let ghost input = bytes@;
    proof {
        lemma_first_occurrence(input, needle@);
    }
    match bytes_search(bytes.clone(), needle) {
        Some(index) => {
            let start = index - header_offset_by_name(&header);
            let mut bytes = bytes;
            let tail = bytes.split_off(start);
            assert(tail@ =~= input.subrange(start as int, input.len() as int));
            tail
        },
        None => {
            assert(bytes@.subrange(0, bytes@.len() as int) =~= bytes@);
            bytes
        },
    }
}

/// Name of the header `find_header` gives, "INVALID" when none.
pub open spec fn found_header_name(mode: Seq<char>, bytes: Seq<u8>) -> Seq<char> {
    match spec_find_header(mode, bytes) {
        Some(h) => h.spec_name(),
        None => invalid_header(),
    }
}

/// Extracting a cached file of category `mode` cannot work on these bytes.
pub open spec fn extraction_fails(mode: Seq<char>, bytes: Seq<u8>) -> bool {
    find_header_fails(mode, bytes) || (found_header_name(mode, bytes) != invalid_header()
        && extract_bytes_fails(found_header_name(mode, bytes), bytes))
}

/// The bytes written when extracting a cached file of category `mode`.
pub open spec fn spec_extracted_bytes(mode: Seq<char>, bytes: Seq<u8>) -> Seq<u8> {
    let name = found_header_name(mode, bytes);
    if name != invalid_header() {
        spec_extract_bytes(name, bytes)
    } else {
        bytes
    }
}

/// Extension used by default, for the music category.
pub open spec fn default_extension() -> Seq<char> {
    seq!['.', 'o', 'g', 'g']
}

/// The path written to when extracting a cached file of category `mode` to
/// `destination`: with the header's extension added on request, ".ogg" when
/// there is no header.
pub open spec fn spec_extraction_destination(
    mode: Seq<char>,
    bytes: Seq<u8>,
    destination: Seq<char>,
    add_extention: bool,
) -> Seq<char> {
    if add_extention {
        match name_extension(found_header_name(mode, bytes)) {
            Some(e) => destination + e,
            None => destination + default_extension(),
        }
    } else {
        destination
    }
}

/// Whether extracting a cached file of category `mode` would fail on these bytes.
pub fn extraction_would_fail(mode: &String, bytes: &Vec<u8>) -> (r: bool)
    ensures
        r == extraction_fails(mode@, bytes@),
{
    if find_header_would_fail(mode, bytes.as_slice()) {
        return true;
    }
    let copy = bytes.clone();
    assert(copy@ =~= bytes@);
    let header = find_header(mode.clone(), copy);
    if header == invalid_header_name() {
        return false;
    }
    if header.as_str().is_empty() {
        return true;
    }
    let needle = header.as_str().as_bytes();
    assert(needle@.len() > 0) by {
        assert(encode_utf8(header@) == vstd::utf8::encode_scalar(header@[0] as u32) + encode_utf8(
            header@.drop_first(),
        ));
    }
    assert(needle@ == encode_utf8(header@));
    let copy = bytes.clone();
    assert(copy@ =~= bytes@);
    match bytes_search(copy, needle) {
        Some(index) => {
            let off = header_offset_by_name(&header);
            index < off
        },
        None => {
            false
        },
    }
}

fn invalid_header_name() -> (r: String)
    ensures
        r@ == invalid_header(),
{
    proof {
        reveal_strlit("INVALID");
    }
    "INVALID".to_owned()
}

/// What extracting a cached file of category `mode` writes, and where: the
/// asset bytes found behind the category's header, and `destination` with the
/// header's extension added on request.
pub fn plan_extraction(mode: String, bytes: Vec<u8>, destination: String, add_extention: bool) -> (r: (
    String,
    Vec<u8>,
))
    requires
        !extraction_fails(mode@, bytes@),
    ensures
        r.0@ == spec_extraction_destination(mode@, bytes@, destination@, add_extention),
        r.1@ == spec_extracted_bytes(mode@, bytes@),
        r.1@.len() <= bytes@.len(),
        r.1@ == bytes@.subrange(bytes@.len() - r.1@.len(), bytes@.len() as int),
{
    let header = find_header(mode, bytes.clone());
    let ghost input = bytes@;
    let extracted_bytes = if header != invalid_header_name() {
        extract_bytes(header.clone(), bytes)
    } else {
        assert(input.subrange(0, input.len() as int) =~= input);
        bytes
    };
    let new_destination = if add_extention {
        match extension_by_name(&header) {
            Some(extention) => destination.concat(extention.as_str()),
            None => {
                proof {
                    reveal_strlit(".ogg");
                }
                destination.concat(".ogg")
            },
        }
    } else {
        destination
    };
    (new_destination, extracted_bytes)
}

} // verus!
