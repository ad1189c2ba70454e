//! The grammar of a request: how a text falls into lines, what a header line
//! says, where a key-value line parts, and what kind of key it carries.

use crate::parsers::number::{all_digits, are_digits, lemma_number_prefix, number, read_number};
use crate::parsers::scan::{
    find_char, find_pair, first_char, first_pair, has_prefix, is_word, lemma_first_char_from,
    lemma_first_pair_from, pair_at,
};
use crate::text::window_string;
use vstd::prelude::*;
use vstd::string::*;

verus! {

/// The method of a request.
#[derive(Clone, Copy, Debug, PartialEq, Eq, Structural)]
pub enum Method {
    Get,
    Notify,
}

/// The kind of a key: one of the six reserved names, a reference with its
/// number, or anything else.
#[derive(Clone, Copy, Debug, PartialEq, Eq, Structural)]
pub enum KeyKind {
    Charset,
    Id,
    BaseId,
    Status,
    SecurityLevel,
    Sender,
    Reference(i32),
    Other,
}

/// What a header line says, over plain values.
pub struct HeaderView {
    pub method: Method,
    pub version: int,
    pub id: Option<Seq<char>>,
}

/// What a header line says.
pub struct Header {
    pub method: Method,
    pub version: i32,
    pub id: Option<String>,
}

impl View for Header {
    type V = HeaderView;

    open spec fn view(&self) -> HeaderView {
        HeaderView { method: self.method, version: self.version as int, id: self.id.deep_view() }
    }
}

/// `x` held between `lo` and `hi`.
pub open spec fn clamp(x: int, lo: int, hi: int) -> int {
    if x < lo {
        lo
    } else if x > hi {
        hi
    } else {
        x
    }
}

/// Where the first line of `s` ends: at its first CR LF, or at its end.
pub open spec fn line_end(s: Seq<char>) -> int {
    first_pair(s, '\r', '\n')
}

/// The lines of `s`: what stands between its CR LF pairs, before the first
/// and behind the last. A text that ends in CR LF has an empty last line.
pub open spec fn lines(s: Seq<char>) -> Seq<Seq<char>>
    decreases s.len(),
{
    let e = line_end(s);
    if 0 <= e && e + 2 <= s.len() {
        seq![s.take(e)] + lines(s.skip(e + 2))
    } else {
        seq![s]
    }
}

/// What the tag of a header line says: `SHIORI/3.0` is version 30; a legacy
/// tag is an id without space or slash, a slash, a major number, a dot and
/// a minor number, and gives the id and version 20 plus the minor number,
/// held between 0 and 9.
pub open spec fn header_tag(method: Method, tag: Seq<char>) -> Option<HeaderView> {
    if tag == "SHIORI/3.0"@ {
        Some(HeaderView { method, version: 30, id: None })
    } else {
        let slash = first_char(tag, '/');
        let id = tag.take(slash);
        let revision = tag.skip(slash + 1);
        let dot = first_char(revision, '.');
        let major = revision.take(dot);
        let minor = revision.skip(dot + 1);
        if slash < tag.len() && id.len() > 0 && !id.contains(' ') && dot < revision.len()
            && major.len() > 0 && all_digits(major) && minor.len() > 0 && all_digits(minor) {
            Some(HeaderView { method, version: 20 + clamp(number(minor), 0, 9), id: Some(id) })
        } else {
            None
        }
    }
}

/// The method that a word names: `GET` or `NOTIFY`, as written.
pub open spec fn method(word: Seq<char>) -> Option<Method> {
    if word == "GET"@ {
        Some(Method::Get)
    } else if word == "NOTIFY"@ {
        Some(Method::Notify)
    } else {
        None
    }
}

/// What a header line says: a method, one space, and a tag.
pub open spec fn header(line: Seq<char>) -> Option<HeaderView> {
    let space = first_char(line, ' ');
    if space < line.len() {
        match method(line.take(space)) {
            Some(m) => header_tag(m, line.skip(space + 1)),
            None => None,
        }
    } else {
        None
    }
}

/// Key and value of a line: what stands before and behind its first colon
/// followed by a space.
pub open spec fn key_value(line: Seq<char>) -> Option<(Seq<char>, Seq<char>)> {
    let at = first_pair(line, ':', ' ');
    if at < line.len() {
        Some((line.take(at), line.skip(at + 2)))
    } else {
        None
    }
}

/// The number of a reference key: `Reference` and digits behind it that
/// denote a number within `i32`.
pub open spec fn reference_number(key: Seq<char>) -> Option<int> {
    let digits = key.skip("Reference"@.len() as int);
    if "Reference"@.is_prefix_of(key) && digits.len() > 0 && all_digits(digits) && number(digits)
        <= i32::MAX {
        Some(number(digits))
    } else {
        None
    }
}

/// The kind of a key.
pub open spec fn key_kind(key: Seq<char>) -> KeyKind {
    if key == "Charset"@ {
        KeyKind::Charset
    } else if key == "ID"@ {
        KeyKind::Id
    } else if key == "BaseID"@ {
        KeyKind::BaseId
    } else if key == "Status"@ {
        KeyKind::Status
    } else if key == "SecurityLevel"@ {
        KeyKind::SecurityLevel
    } else if key == "Sender"@ {
        KeyKind::Sender
    } else {
        match reference_number(key) {
            Some(n) => KeyKind::Reference(n as i32),
            None => KeyKind::Other,
        }
    }
}

/// The first line of `s` ends in range; where it ends before the end of
/// `s`, CR LF stands there, and the lines of `s` are that line and the
/// lines of what follows the CR LF.
pub proof fn lemma_lines(s: Seq<char>)
    ensures
        0 <= line_end(s) <= s.len(),
        line_end(s) < s.len() ==> line_end(s) + 2 <= s.len() && lines(s) == seq![
            s.take(line_end(s)),
        ] + lines(s.skip(line_end(s) + 2)),
        line_end(s) == s.len() ==> lines(s) == seq![s],
        lines(s).len() >= 1,
        lines(s)[0] == s.take(line_end(s)),
    decreases s.len(),
{
    lemma_first_pair_from(s, '\r', '\n', 0);
    let e = line_end(s);
    if e < s.len() {
        assert(pair_at(s, e, '\r', '\n'));
    } else {
        assert(s.take(e) =~= s);
    }
}

/// The grammar of a request, rule by rule.
pub struct ShioriParser;

impl ShioriParser {
    /// Where the line that starts at `from` ends.
    pub fn line_end(chars: &[char], from: usize) -> (r: usize)
        requires
            from <= chars.len(),
        ensures
            from <= r <= chars.len(),
            r - from == line_end(chars@.skip(from as int)),
            r < chars.len() ==> r + 2 <= chars.len(),
    {
        let r = find_pair(chars, from, chars.len(), '\r', '\n');
        proof {
            assert(chars@.subrange(from as int, chars.len() as int) =~= chars@.skip(from as int));
            lemma_lines(chars@.skip(from as int));
        }
        r
    }

    /// Reads the tag of a header line, which stands in the window
    /// `from..to` of `chars`.
    pub fn header_tag(method: Method, chars: &[char], from: usize, to: usize) -> (r: Option<Header>)
        requires
            from <= to <= chars.len(),
        ensures
            r.is_some() == header_tag(method, chars@.subrange(from as int, to as int)).is_some(),
            r matches Some(h) ==> header_tag(method, chars@.subrange(from as int, to as int))
                == Some(h@),
    {
        let ghost tag = chars@.subrange(from as int, to as int);
        if is_word(chars, from, to, "SHIORI/3.0") {
            return Some(Header { method, version: 30, id: None });
        }
        let slash = find_char(chars, from, to, '/');
        if slash >= to || slash == from {
            return None;
        }
        let ghost id = tag.take(slash - from);
        let ghost revision = tag.skip(slash - from + 1);
        assert(id =~= chars@.subrange(from as int, slash as int));
        assert(revision =~= chars@.subrange(slash + 1, to as int));
        let space = find_char(chars, from, slash, ' ');
        proof {
            lemma_first_char_from(id, ' ', 0);
        }
        if space < slash {
            assert(id[space - from] == ' ');
            return None;
        }
        let dot = find_char(chars, slash + 1, to, '.');
        if dot >= to || dot == slash + 1 || dot + 1 == to {
            return None;
        }
        let ghost major = revision.take(dot - slash - 1);
        let ghost minor = revision.skip(dot - slash);
        assert(major =~= chars@.subrange(slash + 1, dot as int));
        assert(minor =~= chars@.subrange(dot + 1, to as int));
        if !are_digits(chars, slash + 1, dot) || !are_digits(chars, dot + 1, to) {
            return None;
        }
        proof {
            lemma_number_prefix(minor, 0);
        }
        let version: i32 = match read_number(chars, dot + 1, to, 9) {
            Some(n) => 20 + n as i32,
            None => 29,
        };
        let id = window_string(chars, from, slash);
        Some(Header { method, version, id: Some(id) })
    }

    /// Reads the header line that stands in the window `from..to` of
    /// `chars`.
    pub fn header(chars: &[char], from: usize, to: usize) -> (r: Option<Header>)
        requires
            from <= to <= chars.len(),
        ensures
            r.is_some() == header(chars@.subrange(from as int, to as int)).is_some(),
            r matches Some(h) ==> header(chars@.subrange(from as int, to as int)) == Some(h@),
    {
        let ghost line = chars@.subrange(from as int, to as int);
        let space = find_char(chars, from, to, ' ');
        if space >= to {
            return None;
        }
        assert(line.take(space - from) =~= chars@.subrange(from as int, space as int));
        assert(line.skip(space - from + 1) =~= chars@.subrange(space + 1, to as int));
        match Self::method(chars, from, space) {
            None => None,
            Some(m) => Self::header_tag(m, chars, space + 1, to),
        }
    }

    /// Reads the method whose word stands in the window `from..to` of
    /// `chars`.
    pub fn method(chars: &[char], from: usize, to: usize) -> (r: Option<Method>)
        requires
            from <= to <= chars.len(),
        ensures
            r == method(chars@.subrange(from as int, to as int)),
    {
        if is_word(chars, from, to, "GET") {
            Some(Method::Get)
        } else if is_word(chars, from, to, "NOTIFY") {
            Some(Method::Notify)
        } else {
            None
        }
    }

    /// Finds where the key-value line in the window `from..to` of `chars`
    /// parts: the index of its first colon followed by a space.
    pub fn key_value(chars: &[char], from: usize, to: usize) -> (r: Option<usize>)
        requires
            from <= to <= chars.len(),
        ensures
            r.is_some() == key_value(chars@.subrange(from as int, to as int)).is_some(),
            r matches Some(at) ==> from <= at && at + 2 <= to && key_value(
                chars@.subrange(from as int, to as int),
            ) == Some(
                (chars@.subrange(from as int, at as int), chars@.subrange(at + 2, to as int)),
            ),
    {
        let ghost line = chars@.subrange(from as int, to as int);
        let at = find_pair(chars, from, to, ':', ' ');
        if at < to {
            proof {
                lemma_first_pair_from(line, ':', ' ', 0);
                assert(line.take(at - from) =~= chars@.subrange(from as int, at as int));
                assert(line.skip(at - from + 2) =~= chars@.subrange(at + 2, to as int));
            }
            Some(at)
        } else {
            None
        }
    }

    /// Tells the kind of the key that stands in the window `from..to` of
    /// `chars`.
    pub fn key(chars: &[char], from: usize, to: usize) -> (r: KeyKind)
        requires
            from <= to <= chars.len(),
        ensures
            r == key_kind(chars@.subrange(from as int, to as int)),
    {
        let ghost key = chars@.subrange(from as int, to as int);
        if is_word(chars, from, to, "Charset") {
            KeyKind::Charset
        } else if is_word(chars, from, to, "ID") {
            KeyKind::Id
        } else if is_word(chars, from, to, "BaseID") {
            KeyKind::BaseId
        } else if is_word(chars, from, to, "Status") {
            KeyKind::Status
        } else if is_word(chars, from, to, "SecurityLevel") {
            KeyKind::SecurityLevel
        } else if is_word(chars, from, to, "Sender") {
            KeyKind::Sender
        } else if has_prefix(chars, from, to, "Reference") {
            let n = "Reference".unicode_len();
            assert(key.skip(n as int) =~= chars@.subrange(from + n, to as int));
            if from + n < to && are_digits(chars, from + n, to) {
                proof {
                    lemma_number_prefix(key.skip(n as int), 0);
                }
                match read_number(chars, from + n, to, 0x7fff_ffff) {
                    Some(number) => KeyKind::Reference(number as i32),
                    None => KeyKind::Other,
                }
            } else {
                KeyKind::Other
            }
        } else {
            KeyKind::Other
        }
    }
}

} // verus!
