//! The decoded request, and the decoder.

use crate::error::{ParseError, ParseErrorView};
use crate::parsers::shiori::{
    header, key_kind, key_value, lemma_lines, line_end, lines, HeaderView, KeyKind, Method,
    ShioriParser,
};
use crate::text::{collect_chars, same_text, window_string};
use vstd::prelude::*;

verus! {

/// A decoded request over plain values.
pub struct RequestView {
    pub text: Seq<char>,
    pub version: int,
    pub method: Method,
    pub id: Option<Seq<char>>,
    pub sender: Option<Seq<char>>,
    pub security_level: Option<Seq<char>>,
    pub charset: Option<Seq<char>>,
    pub status: Option<Seq<char>>,
    pub base_id: Option<Seq<char>>,
    pub reference: Seq<(i32, Seq<char>)>,
    pub dic: Map<Seq<char>, Seq<char>>,
    pub key_values: Seq<(KeyKind, Seq<char>, Seq<char>)>,
}

/// `value`, unless `field` is taken already.
pub open spec fn first_wins(field: Option<Seq<char>>, value: Seq<char>) -> Option<Seq<char>> {
    if field is Some {
        field
    } else {
        Some(value)
    }
}

impl RequestView {
    /// The request of a text of which only the header has been read.
    pub open spec fn start(text: Seq<char>, header: HeaderView) -> RequestView {
        RequestView {
            text,
            version: header.version,
            method: header.method,
            id: header.id,
            sender: None,
            security_level: None,
            charset: None,
            status: None,
            base_id: None,
            reference: Seq::empty(),
            dic: Map::empty(),
            key_values: Seq::empty(),
        }
    }

    /// The request after one more key-value line. A reserved key sets its
    /// field unless that is set; a reference is appended; every key goes to
    /// the dictionary unless it is there, and to the entries.
    pub open spec fn record(self, key: Seq<char>, value: Seq<char>) -> RequestView {
        let kind = key_kind(key);
        RequestView {
            text: self.text,
            version: self.version,
            method: self.method,
            id: if kind == KeyKind::Id {
                first_wins(self.id, value)
            } else {
                self.id
            },
            sender: if kind == KeyKind::Sender {
                first_wins(self.sender, value)
            } else {
                self.sender
            },
            security_level: if kind == KeyKind::SecurityLevel {
                first_wins(self.security_level, value)
            } else {
                self.security_level
            },
            charset: if kind == KeyKind::Charset {
                first_wins(self.charset, value)
            } else {
                self.charset
            },
            status: if kind == KeyKind::Status {
                first_wins(self.status, value)
            } else {
                self.status
            },
            base_id: if kind == KeyKind::BaseId {
                first_wins(self.base_id, value)
            } else {
                self.base_id
            },
            reference: match kind {
                KeyKind::Reference(n) => self.reference.push((n, value)),
                _ => self.reference,
            },
            dic: if self.dic.contains_key(key) {
                self.dic
            } else {
                self.dic.insert(key, value)
            },
            key_values: self.key_values.push((kind, key, value)),
        }
    }
}

/// Reads the key-value lines `ls[i..]` into `req`, up to the first empty
/// line or the end.
pub open spec fn read_entries(ls: Seq<Seq<char>>, i: int, req: RequestView) -> Result<
    RequestView,
    ParseErrorView,
>
    decreases ls.len() - i,
{
    if i < 0 || i >= ls.len() || ls[i].len() == 0 {
        Ok(req)
    } else {
        match key_value(ls[i]) {
            None => Err(ParseErrorView::MalformedKeyValue { line: ls[i], position: i }),
            Some((key, value)) => read_entries(ls, i + 1, req.record(key, value)),
        }
    }
}

/// What a text decodes to: its first line is the header, the lines behind
/// it up to the first empty one are key-value lines.
pub open spec fn decode(text: Seq<char>) -> Result<RequestView, ParseErrorView> {
    let ls = lines(text);
    match header(ls[0]) {
        None => Err(ParseErrorView::MalformedHeader),
        Some(h) => read_entries(ls, 1, RequestView::start(text, h)),
    }
}

/// The dictionary that a list of entries stands for: of two entries with
/// one key the earlier counts.
pub open spec fn dic_of(entries: Seq<(Seq<char>, Seq<char>)>) -> Map<Seq<char>, Seq<char>>
    decreases entries.len(),
{
    if entries.len() == 0 {
        Map::empty()
    } else {
        let m = dic_of(entries.drop_last());
        let e = entries.last();
        if m.contains_key(e.0) {
            m
        } else {
            m.insert(e.0, e.1)
        }
    }
}

/// The entry at index `i` of `entries` has the key `key`.
pub open spec fn key_at(entries: Seq<(Seq<char>, Seq<char>)>, i: int, key: Seq<char>) -> bool {
    0 <= i < entries.len() && entries[i].0 == key
}

/// A key is in the dictionary of a list exactly if an entry has it.
pub proof fn lemma_dic_has_key(entries: Seq<(Seq<char>, Seq<char>)>, key: Seq<char>)
    ensures
        dic_of(entries).contains_key(key) <==> exists|i: int| key_at(entries, i, key),
    decreases entries.len(),
{
    if entries.len() > 0 {
        let front = entries.drop_last();
        let n = entries.len() - 1;
        lemma_dic_has_key(front, key);
        if entries[n].0 == key {
            assert(key_at(entries, n, key));
        } else {
            if exists|i: int| key_at(front, i, key) {
                let w = choose|i: int| key_at(front, i, key);
                assert(key_at(entries, w, key));
            }
            if exists|i: int| key_at(entries, i, key) {
                let w = choose|i: int| key_at(entries, i, key);
                assert(key_at(front, w, key));
            }
        }
    }
}

/// A key maps to the value of the first entry that has it.
pub proof fn lemma_dic_first(entries: Seq<(Seq<char>, Seq<char>)>, key: Seq<char>, i: int)
    requires
        key_at(entries, i, key),
        forall|j: int| 0 <= j < i ==> !key_at(entries, j, key),
    ensures
        dic_of(entries).contains_key(key),
        dic_of(entries)[key] == entries[i].1,
    decreases entries.len(),
{
    let front = entries.drop_last();
    let n = entries.len() - 1;
    lemma_dic_has_key(front, key);
    if i == n {
        if exists|j: int| key_at(front, j, key) {
            let w = choose|j: int| key_at(front, j, key);
            assert(key_at(entries, w, key));
        }
    } else {
        assert(key_at(front, i, key));
        assert forall|j: int| 0 <= j < i implies !key_at(front, j, key) by {
            assert(!key_at(entries, j, key));
        }
        lemma_dic_first(front, key, i);
    }
}

/// The entries of `entries` without those whose key an earlier entry has,
/// in their order.
pub open spec fn first_entries(entries: Seq<(Seq<char>, Seq<char>)>) -> Seq<
    (Seq<char>, Seq<char>),
>
    decreases entries.len(),
{
    if entries.len() == 0 {
        Seq::empty()
    } else {
        let front = first_entries(entries.drop_last());
        let e = entries.last();
        if exists|i: int| key_at(front, i, e.0) {
            front
        } else {
            front.push(e)
        }
    }
}

/// No two of the first entries have the same key.
pub proof fn lemma_first_entries_distinct(entries: Seq<(Seq<char>, Seq<char>)>)
    ensures
        forall|i: int, j: int|
            0 <= i < j < first_entries(entries).len() ==> (#[trigger] first_entries(
                entries,
            )[i]).0 != (#[trigger] first_entries(entries)[j]).0,
    decreases entries.len(),
{
    if entries.len() > 0 {
        let front = first_entries(entries.drop_last());
        let e = entries.last();
        lemma_first_entries_distinct(entries.drop_last());
        if !(exists|i: int| key_at(front, i, e.0)) {
            let all = first_entries(entries);
            assert(all == front.push(e));
            assert forall|i: int, j: int| 0 <= i < j < all.len() implies (#[trigger] all[i]).0 != (
            #[trigger] all[j]).0 by {
                if j == front.len() {
                    assert(!key_at(front, i, e.0));
                } else {
                    assert(all[i] == front[i] && all[j] == front[j]);
                }
            }
        }
    }
}

/// Key and value of each recorded line.
pub open spec fn entries_of(kv: Seq<(KeyKind, Seq<char>, Seq<char>)>) -> Seq<
    (Seq<char>, Seq<char>),
> {
    Seq::new(kv.len(), |i: int| (kv[i].1, kv[i].2))
}

/// The value of the first recorded line of kind `kind`, if there is one.
pub open spec fn first_of(kv: Seq<(KeyKind, Seq<char>, Seq<char>)>, kind: KeyKind) -> Option<
    Seq<char>,
>
    decreases kv.len(),
{
    if kv.len() == 0 {
        None
    } else {
        match first_of(kv.drop_last(), kind) {
            Some(value) => Some(value),
            None => if kv.last().0 == kind {
                Some(kv.last().2)
            } else {
                None
            },
        }
    }
}

/// Number and value of the recorded reference lines, in their order.
pub open spec fn references_of(kv: Seq<(KeyKind, Seq<char>, Seq<char>)>) -> Seq<(i32, Seq<char>)>
    decreases kv.len(),
{
    if kv.len() == 0 {
        Seq::empty()
    } else {
        match kv.last().0 {
            KeyKind::Reference(n) => references_of(kv.drop_last()).push((n, kv.last().2)),
            _ => references_of(kv.drop_last()),
        }
    }
}

impl RequestView {
    /// The parts of the request agree with its recorded lines, as they do
    /// in every decoded request: each line is recorded under the kind of
    /// its key; a reserved field is the value of the first line of its
    /// kind, but that the id of a legacy request is the one of its header;
    /// the references are the reference lines, all of them, in their
    /// order; the dictionary holds every key with the value of its first
    /// line; the version is 30, or 20 to 29 for a legacy request.
    pub open spec fn well_formed(self) -> bool {
        &&& 20 <= self.version <= 30
        &&& forall|i: int|
            0 <= i < self.key_values.len() ==> (#[trigger] self.key_values[i]).0 == key_kind(
                self.key_values[i].1,
            )
        &&& if self.version == 30 {
            self.id == first_of(self.key_values, KeyKind::Id)
        } else {
            self.id is Some
        }
        &&& self.sender == first_of(self.key_values, KeyKind::Sender)
        &&& self.security_level == first_of(self.key_values, KeyKind::SecurityLevel)
        &&& self.charset == first_of(self.key_values, KeyKind::Charset)
        &&& self.status == first_of(self.key_values, KeyKind::Status)
        &&& self.base_id == first_of(self.key_values, KeyKind::BaseId)
        &&& self.reference == references_of(self.key_values)
        &&& self.dic == dic_of(entries_of(self.key_values))
    }
}

/// A header gives version 30 and no id, or a version from 20 to 29 and an
/// id.
proof fn lemma_header_version(line: Seq<char>)
    ensures
        header(line) matches Some(h) ==> 20 <= h.version <= 30 && (h.version == 30 <==> h.id
            is None),
{
}

/// One more line recorded leaves a request well formed.
proof fn lemma_record_well_formed(req: RequestView, key: Seq<char>, value: Seq<char>)
    requires
        req.well_formed(),
    ensures
        req.record(key, value).well_formed(),
{
    let next = req.record(key, value);
    let kv = req.key_values;
    let entry = (key_kind(key), key, value);
    assert(next.key_values == kv.push(entry));
    assert(next.key_values.drop_last() =~= kv);
    assert(entries_of(next.key_values).drop_last() =~= entries_of(kv));
    assert(entries_of(next.key_values).last() == (key, value));
    assert forall|i: int| 0 <= i < next.key_values.len() implies (
    #[trigger] next.key_values[i]).0 == key_kind(next.key_values[i].1) by {
        if i < kv.len() {
            assert(next.key_values[i] == kv[i]);
        }
    }
}

/// Reading key-value lines into a well-formed request gives a well-formed
/// request, with the text it had.
proof fn lemma_read_entries_well_formed(ls: Seq<Seq<char>>, i: int, req: RequestView)
    requires
        req.well_formed(),
    ensures
        read_entries(ls, i, req) matches Ok(r) ==> r.well_formed() && r.text == req.text,
    decreases ls.len() - i,
{
    if i < 0 || i >= ls.len() || ls[i].len() == 0 {
    } else {
        match key_value(ls[i]) {
            None => {},
            Some((key, value)) => {
                lemma_record_well_formed(req, key, value);
                lemma_read_entries_well_formed(ls, i + 1, req.record(key, value));
            },
        }
    }
}

/// What a text decodes to is well formed, and holds the text.
pub proof fn lemma_decode_well_formed(text: Seq<char>)
    ensures
        decode(text) matches Ok(r) ==> r.well_formed() && r.text == text,
{
    let ls = lines(text);
    lemma_header_version(ls[0]);
    match header(ls[0]) {
        None => {},
        Some(h) => {
            let start = RequestView::start(text, h);
            assert(entries_of(start.key_values) =~= Seq::empty());
            lemma_read_entries_well_formed(ls, 1, start);
        },
    }
}

/// Where reading key-value lines fails, it fails at the first line at or
/// behind `i` that is not empty and does not part into key and value, and
/// every line between is a key-value line.
proof fn lemma_read_entries_failure(ls: Seq<Seq<char>>, i: int, req: RequestView)
    requires
        0 <= i,
    ensures
        read_entries(ls, i, req) matches Err(e) ==> e matches ParseErrorView::MalformedKeyValue {
            line,
            position,
        } && i <= position < ls.len() && ls[position] == line && key_value(line) is None
            && forall|k: int| i <= k < position ==> key_value(#[trigger] ls[k]) is Some,
    decreases ls.len() - i,
{
    if i >= ls.len() || ls[i].len() == 0 {
    } else {
        match key_value(ls[i]) {
            None => {},
            Some((key, value)) => {
                lemma_read_entries_failure(ls, i + 1, req.record(key, value));
            },
        }
    }
}

/// What a failure of the decoder says: `MalformedHeader`, that the first
/// line is no header; `MalformedKeyValue`, that the first line is one, and
/// that the line at `position` is the first behind it that does not part
/// into key and value, with no empty line before it.
pub proof fn lemma_decode_failure(text: Seq<char>)
    ensures
        decode(text) matches Err(e) ==> match e {
            ParseErrorView::MalformedHeader => header(lines(text)[0]) is None,
            ParseErrorView::MalformedKeyValue { line, position } => {
                &&& header(lines(text)[0]) is Some
                &&& 1 <= position < lines(text).len()
                &&& lines(text)[position] == line
                &&& key_value(line) is None
                &&& forall|k: int| 1 <= k < position ==> key_value(#[trigger] lines(text)[k]) is Some
            },
        },
{
    let ls = lines(text);
    match header(ls[0]) {
        None => {},
        Some(h) => {
            lemma_read_entries_failure(ls, 1, RequestView::start(text, h));
        },
    }
}

/// A decoded request.
#[derive(Clone, Debug, PartialEq, Eq)]
pub struct ShioriRequest {
    /// The text that was decoded.
    pub text: String,
    /// 30, or 20 to 29 for a legacy request.
    pub version: i32,
    pub method: Method,
    pub id: Option<String>,
    pub sender: Option<String>,
    pub security_level: Option<String>,
    pub charset: Option<String>,
    pub status: Option<String>,
    pub base_id: Option<String>,
    /// Every reference line, as number and value, in the order of the text.
    pub reference: Vec<(i32, String)>,
    /// Key and value of the first line of each key, in the order of the text.
    pub dic: Vec<(String, String)>,
    /// Kind, key and value of every key-value line, in the order of the text.
    pub key_values: Vec<(KeyKind, String, String)>,
}

/// The entries of a dictionary over plain values.
pub open spec fn dic_entries(dic: Seq<(String, String)>) -> Seq<(Seq<char>, Seq<char>)> {
    Seq::new(dic.len(), |i: int| (dic[i].0@, dic[i].1@))
}

/// The recorded lines over plain values.
pub open spec fn key_values_view(kv: Seq<(KeyKind, String, String)>) -> Seq<
    (KeyKind, Seq<char>, Seq<char>),
> {
    Seq::new(kv.len(), |i: int| (kv[i].0, kv[i].1@, kv[i].2@))
}

impl View for ShioriRequest {
    type V = RequestView;

    open spec fn view(&self) -> RequestView {
        RequestView {
            text: self.text@,
            version: self.version as int,
            method: self.method,
            id: self.id.deep_view(),
            sender: self.sender.deep_view(),
            security_level: self.security_level.deep_view(),
            charset: self.charset.deep_view(),
            status: self.status.deep_view(),
            base_id: self.base_id.deep_view(),
            reference: self.reference.deep_view(),
            dic: dic_of(dic_entries(self.dic@)),
            key_values: key_values_view(self.key_values@),
        }
    }
}

impl ShioriRequest {
    /// `dic` lists each key once: it holds, in the order of the text, the
    /// first of the recorded lines of each key, and nothing else.
    pub open spec fn dic_listed(&self) -> bool {
        dic_entries(self.dic@) == first_entries(entries_of(self@.key_values))
    }

    /// Decodes a request: returns what `decode` says of the text, the
    /// request or the failure. In the request `dic` lists each key once,
    /// in the order in which the keys first stand in the text.
    pub fn parse(text: &str) -> (r: Result<ShioriRequest, ParseError>)
        ensures
            match r {
                Ok(req) => decode(text@) == Ok::<RequestView, ParseErrorView>(req@)
                    && req@.well_formed() && req.text@ == text@ && req.dic_listed()
                    && forall|i: int, j: int|
                    0 <= i < j < req.dic@.len() ==> (#[trigger] req.dic@[i]).0@ != (
                    #[trigger] req.dic@[j]).0@,
                Err(e) => decode(text@) == Err::<RequestView, ParseErrorView>(e@),
            },
    {
        proof {
            lemma_decode_well_formed(text@);
        }
        let chars = collect_chars(text);
        let end = ShioriParser::line_end(chars.as_slice(), 0);
        proof {
            assert(chars@.skip(0) =~= chars@);
            assert(chars@.take(end as int) =~= chars@.subrange(0, end as int));
            lemma_lines(chars@);
        }
        match ShioriParser::header(chars.as_slice(), 0, end) {
            None => Err(ParseError::MalformedHeader),
            Some(h) => {
                let mut rc = ShioriRequest::new(text);
                rc.version = h.version;
                rc.method = h.method;
                rc.id = h.id;
                assert(rc@ == RequestView::start(text@, h@)) by {
                    assert(rc.reference.deep_view() =~= Seq::empty());
                    assert(dic_entries(rc.dic@) =~= Seq::empty());
                    assert(key_values_view(rc.key_values@) =~= Seq::empty());
                }
                assert(rc.dic_listed()) by {
                    assert(dic_entries(rc.dic@) =~= Seq::empty());
                    assert(key_values_view(rc.key_values@) =~= Seq::empty());
                    assert(entries_of(rc@.key_values) =~= Seq::empty());
                }
                let r = rc.parse1(&chars, end);
                proof {
                    if r is Ok {
                        let req = r->Ok_0;
                        let listed = first_entries(entries_of(req@.key_values));
                        lemma_first_entries_distinct(entries_of(req@.key_values));
                        assert forall|i: int, j: int| 0 <= i < j < req.dic@.len() implies (
                        #[trigger] req.dic@[i]).0@ != (#[trigger] req.dic@[j]).0@ by {
                            assert(listed[i].0 != listed[j].0);
                            assert(dic_entries(req.dic@)[i].0 == req.dic@[i].0@);
                            assert(dic_entries(req.dic@)[j].0 == req.dic@[j].0@);
                        }
                    }
                }
                r
            },
        }
    }

    /// A request of `text` with nothing read yet: method `Get`, version 0,
    /// no field set, no entry.
    pub fn new(text: &str) -> (r: ShioriRequest)
        ensures
            r.text@ == text@,
            r.version == 0,
            r.method == Method::Get,
            r.id is None,
            r.sender is None,
            r.security_level is None,
            r.charset is None,
            r.status is None,
            r.base_id is None,
            r.reference@.len() == 0,
            r.dic@.len() == 0,
            r.key_values@.len() == 0,
    {
        ShioriRequest {
            text: text.to_owned(),
            version: 0,
            method: Method::Get,
            id: None,
            sender: None,
            security_level: None,
            charset: None,
            status: None,
            base_id: None,
            dic: Vec::new(),
            key_values: Vec::new(),
            reference: Vec::new(),
        }
    }

    /// Reads the key-value lines behind the header, which ends at
    /// `header_end`, into this request.
    fn parse1(self, chars: &Vec<char>, header_end: usize) -> (r: Result<
        ShioriRequest,
        ParseError,
    >)
        requires
            header_end <= chars.len(),
            header_end == line_end(chars@),
            self.dic_listed(),
        ensures
            match r {
                Ok(req) => read_entries(lines(chars@), 1, self@) == Ok::<
                    RequestView,
                    ParseErrorView,
                >(req@) && req.dic_listed(),
                Err(e) => read_entries(lines(chars@), 1, self@) == Err::<
                    RequestView,
                    ParseErrorView,
                >(e@),
            },
    {
        let ghost ls = lines(chars@);
        let ghost start_view = self@;
        let mut rc = self;
        let mut end: usize = header_end;
        let mut i: usize = 1;
        proof {
            lemma_lines(chars@);
        }
        while end < chars.len()
            invariant
                ls == lines(chars@),
                start_view == self@,
                end <= chars.len(),
                1 <= i <= end + 1,
                i <= ls.len(),
                end < chars.len() ==> end + 2 <= chars.len() && ls.skip(i as int) == lines(
                    chars@.skip(end + 2),
                ),
                end == chars.len() ==> ls.len() == i,
                rc.dic_listed(),
                read_entries(ls, 1, start_view) == read_entries(ls, i as int, rc@),
            decreases chars.len() - end,
        {
            let from = end + 2;
            let to = ShioriParser::line_end(chars.as_slice(), from);
            proof {
                let rest = chars@.skip(from as int);
                lemma_lines(rest);
                assert(ls[i as int] == ls.skip(i as int)[0]);
                assert(rest.take(to - from) =~= chars@.subrange(from as int, to as int));
                if to < chars.len() {
                    assert(rest.skip(to - from + 2) =~= chars@.skip(to + 2));
                    assert(ls.skip(i + 1) =~= ls.skip(i as int).skip(1));
                    assert(lines(rest).skip(1) =~= lines(chars@.skip(to + 2)));
                } else {
                    assert(ls.skip(i as int).len() == 1);
                }
            }
            if to == from {
                return Ok(rc);
            }
            if !rc.parse_key_value(chars, from, to) {
                return Err(
                    ParseError::MalformedKeyValue {
                        line: window_string(chars.as_slice(), from, to),
                        position: i,
                    },
                );
            }
            end = to;
            i = i + 1;
        }
        Ok(rc)
    }

    /// Reads the key-value line in the window `from..to` of `chars` into
    /// this request. Returns false, and leaves the request as it is, where
    /// the line has no colon followed by a space.
    fn parse_key_value(&mut self, chars: &Vec<char>, from: usize, to: usize) -> (r: bool)
        requires
            from <= to <= chars.len(),
            old(self).dic_listed(),
        ensures
            r == key_value(chars@.subrange(from as int, to as int)).is_some(),
            final(self).dic_listed(),
            !r ==> *final(self) == *old(self),
            r ==> final(self)@ == old(self)@.record(
                key_value(chars@.subrange(from as int, to as int)).unwrap().0,
                key_value(chars@.subrange(from as int, to as int)).unwrap().1,
            ),
    {
        let at = match ShioriParser::key_value(chars.as_slice(), from, to) {
            None => {
                return false;
            },
            Some(at) => at,
        };
        let kind = ShioriParser::key(chars.as_slice(), from, at);
        let key = window_string(chars.as_slice(), from, at);
        let value = window_string(chars.as_slice(), at + 2, to);
        match kind {
            KeyKind::Reference(n) => {
                self.reference.push((n, value.clone()));
                assert(self.reference.deep_view() =~= old(self).reference.deep_view().push(
                    (n, value@),
                ));
            },
            KeyKind::Charset => {
                if self.charset.is_none() {
                    self.charset = Some(value.clone());
                }
            },
            KeyKind::Id => {
                if self.id.is_none() {
                    self.id = Some(value.clone());
                }
            },
            KeyKind::BaseId => {
                if self.base_id.is_none() {
                    self.base_id = Some(value.clone());
                }
            },
            KeyKind::Status => {
                if self.status.is_none() {
                    self.status = Some(value.clone());
                }
            },
            KeyKind::SecurityLevel => {
                if self.security_level.is_none() {
                    self.security_level = Some(value.clone());
                }
            },
            KeyKind::Sender => {
                if self.sender.is_none() {
                    self.sender = Some(value.clone());
                }
            },
            KeyKind::Other => {},
        }
        proof {
            lemma_dic_has_key(dic_entries(old(self).dic@), key@);
        }
        if self.dic_index(key.as_str()).is_none() {
            self.dic.push((key.clone(), value.clone()));
            proof {
                let before = dic_entries(old(self).dic@);
                let after = dic_entries(self.dic@);
                assert(after.drop_last() =~= before);
                assert(after.last() == (key@, value@));
                assert(after =~= before.push((key@, value@)));
            }
        }
        self.key_values.push((kind, key, value));
        assert(key_values_view(self.key_values@) =~= key_values_view(old(self).key_values@).push(
            (kind, key@, value@),
        ));
        proof {
            let recorded = entries_of(self@.key_values);
            assert(recorded.drop_last() =~= entries_of(old(self)@.key_values));
            assert(recorded.last() == (key@, value@));
        }
        true
    }

    /// The index in `dic` of the first entry of `key`, if there is one.
    pub fn dic_index(&self, key: &str) -> (r: Option<usize>)
        ensures
            r.is_some() == self@.dic.contains_key(key@),
            r matches Some(i) ==> i < self.dic@.len() && self.dic@[i as int].0@ == key@
                && self.dic@[i as int].1@ == self@.dic[key@] && forall|j: int|
                0 <= j < i ==> (#[trigger] self.dic@[j]).0@ != key@,
    {
        let mut i: usize = 0;
        while i < self.dic.len()
            invariant
                0 <= i <= self.dic@.len(),
                forall|j: int| 0 <= j < i ==> !key_at(dic_entries(self.dic@), j, key@),
                forall|j: int| 0 <= j < i ==> (#[trigger] self.dic@[j]).0@ != key@,
            decreases self.dic@.len() - i,
        {
            if same_text(self.dic[i].0.as_str(), key) {
                proof {
                    lemma_dic_first(dic_entries(self.dic@), key@, i as int);
                }
                return Some(i);
            }
            i = i + 1;
        }
        proof {
            lemma_dic_has_key(dic_entries(self.dic@), key@);
        }
        None
    }

    /// The value that the dictionary holds for `key`, if it holds one.
    pub fn dic_get(&self, key: &str) -> (r: Option<&String>)
        ensures
            r.is_some() == self@.dic.contains_key(key@),
            r matches Some(value) ==> value@ == self@.dic[key@],
    {
        match self.dic_index(key) {
            Some(i) => Some(&self.dic[i].1),
            None => None,
        }
    }
}

} // verus!
