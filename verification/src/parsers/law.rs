//! Reading back what was written: the decoder gives the structured fields
//! of a request back from its canonical text.

use crate::error::ParseErrorView;
use crate::parsers::number::{
    decimal, digit_char, digit_value, is_digit, lemma_decimal, lemma_number_prefix, number,
};
use crate::parsers::req::{decode, read_entries, RequestView, ShioriRequest};
use crate::parsers::scan::{
    find_char, find_pair, first_char, first_pair, lemma_first_char_from, lemma_first_char_is,
    lemma_first_pair_from, lemma_first_pair_is, pair_at,
};
use crate::parsers::shiori::{
    header, header_tag, key_kind, key_value, lemma_lines, line_end, lines, method,
    reference_number, HeaderView, KeyKind, Method,
};
use crate::parsers::wire::{
    entry_line, field_lines, header_line, header_tag_text, join_lines, method_word,
    reference_key, reference_lines, wire_lines, wire_text,
};
use crate::text::collect_chars;
use vstd::prelude::*;

verus! {

/// No CR LF stands in `s`.
pub open spec fn single_line(s: Seq<char>) -> bool {
    forall|i: int| !pair_at(s, i, '\r', '\n')
}

/// `key` holds neither a colon nor a CR.
pub open spec fn plain_key(key: Seq<char>) -> bool {
    forall|i: int| 0 <= i < key.len() ==> key[i] != ':' && key[i] != '\r'
}

/// The first line of a text that begins with a line without CR LF in it,
/// and CR LF behind it, is that line; the other lines are those of the rest.
pub proof fn lemma_first_line(line: Seq<char>, rest: Seq<char>)
    requires
        single_line(line),
    ensures
        lines(line + seq!['\r', '\n'] + rest) == seq![line] + lines(rest),
{
    let s = line + seq!['\r', '\n'] + rest;
    assert forall|j: int| 0 <= j < line.len() implies !pair_at(s, j, '\r', '\n') by {
        if j + 1 < line.len() {
            assert(!pair_at(line, j, '\r', '\n'));
        }
    }
    assert(pair_at(s, line.len() as int, '\r', '\n'));
    lemma_first_pair_is(s, '\r', '\n', 0, line.len() as int);
    lemma_lines(s);
    assert(s.take(line.len() as int) =~= line);
    assert(s.skip(line.len() as int + 2) =~= rest);
}

/// A text of lines begins with its first line and CR LF.
proof fn lemma_join_front(ls: Seq<Seq<char>>)
    requires
        ls.len() > 0,
    ensures
        join_lines(ls) == ls[0] + seq!['\r', '\n'] + join_lines(ls.skip(1)),
    decreases ls.len(),
{
    if ls.len() == 1 {
        assert(ls.drop_last() =~= Seq::<Seq<char>>::empty());
        assert(ls.skip(1) =~= Seq::<Seq<char>>::empty());
        assert(join_lines(ls) =~= ls[0] + seq!['\r', '\n'] + join_lines(ls.skip(1)));
    } else {
        lemma_join_front(ls.drop_last());
        assert(ls.skip(1).drop_last() =~= ls.drop_last().skip(1));
        assert(join_lines(ls) =~= ls[0] + seq!['\r', '\n'] + join_lines(ls.skip(1)));
    }
}

/// The lines of a text of lines without CR LF in them, and something
/// behind it, are those lines and the lines of what is behind.
pub proof fn lemma_lines_of_join(ls: Seq<Seq<char>>, tail: Seq<char>)
    requires
        forall|i: int| 0 <= i < ls.len() ==> single_line(#[trigger] ls[i]),
    ensures
        lines(join_lines(ls) + tail) == ls + lines(tail),
    decreases ls.len(),
{
    if ls.len() == 0 {
        assert(join_lines(ls) + tail =~= tail);
        assert(ls + lines(tail) =~= lines(tail));
    } else {
        lemma_join_front(ls);
        let rest = join_lines(ls.skip(1)) + tail;
        assert(join_lines(ls) + tail =~= ls[0] + seq!['\r', '\n'] + rest);
        lemma_first_line(ls[0], rest);
        assert forall|i: int| 0 <= i < ls.skip(1).len() implies single_line(
            #[trigger] ls.skip(1)[i],
        ) by {
            assert(ls.skip(1)[i] == ls[i + 1]);
        }
        lemma_lines_of_join(ls.skip(1), tail);
        assert(seq![ls[0]] + (ls.skip(1) + lines(tail)) =~= ls + lines(tail));
    }
}

/// The lines of a text are the text taken apart at its CR LF pairs, and
/// nothing else: no line holds CR LF, and the lines with CR LF between them
/// are the text.
pub proof fn lemma_lines_rejoin(s: Seq<char>)
    ensures
        forall|i: int| 0 <= i < lines(s).len() ==> single_line(#[trigger] lines(s)[i]),
        join_lines(lines(s).drop_last()) + lines(s).last() == s,
    decreases s.len(),
{
    lemma_lines(s);
    lemma_first_pair_from(s, '\r', '\n', 0);
    let e = line_end(s);
    let ls = lines(s);
    if e == s.len() {
        assert(ls.drop_last() =~= Seq::<Seq<char>>::empty());
        assert(join_lines(ls.drop_last()) + ls.last() =~= s);
        assert forall|j: int| !pair_at(s, j, '\r', '\n') by {}
    } else {
        let first = s.take(e);
        let rest = s.skip(e + 2);
        lemma_lines_rejoin(rest);
        lemma_lines(rest);
        let tail = lines(rest);
        let front = ls.drop_last();
        assert(front =~= seq![first] + tail.drop_last());
        lemma_join_front(front);
        assert(front.skip(1) =~= tail.drop_last());
        assert(ls.last() == tail.last());
        assert(join_lines(front) + ls.last() =~= first + seq!['\r', '\n'] + (join_lines(
            tail.drop_last(),
        ) + tail.last()));
        assert(first + seq!['\r', '\n'] + rest =~= s);
        assert forall|j: int| !pair_at(first, j, '\r', '\n') by {
            if pair_at(first, j, '\r', '\n') {
                assert(pair_at(s, j, '\r', '\n'));
            }
        }
        assert forall|i: int| 0 <= i < ls.len() implies single_line(#[trigger] ls[i]) by {
            if i > 0 {
                assert(ls[i] == tail[i - 1]);
            }
        }
    }
}

/// An empty line alone: two empty lines, the one before CR LF and the one
/// behind it.
proof fn lemma_lines_of_blank()
    ensures
        lines(seq!['\r', '\n']) == seq![Seq::<char>::empty(), Seq::<char>::empty()],
{
    let empty = Seq::<char>::empty();
    assert(single_line(empty));
    lemma_first_line(empty, empty);
    assert(empty + seq!['\r', '\n'] + empty =~= seq!['\r', '\n']);
    lemma_lines(empty);
    assert(seq![empty] + seq![empty] =~= seq![empty, empty]);
}

/// A key-value line of a key without colon parts into that key and value.
proof fn lemma_key_value_of_entry(key: Seq<char>, value: Seq<char>)
    requires
        plain_key(key),
    ensures
        key_value(entry_line(key, value)) == Some((key, value)),
        entry_line(key, value).len() > 0,
{
    let line = entry_line(key, value);
    assert forall|j: int| 0 <= j < key.len() implies !pair_at(line, j, ':', ' ') by {
        assert(line[j] == key[j]);
    }
    assert(pair_at(line, key.len() as int, ':', ' '));
    lemma_first_pair_is(line, ':', ' ', 0, key.len() as int);
    assert(line.take(key.len() as int) =~= key);
    assert(line.skip(key.len() as int + 2) =~= value);
}

/// A key-value line of a key without CR and a value without CR LF has no
/// CR LF.
proof fn lemma_entry_single_line(key: Seq<char>, value: Seq<char>)
    requires
        plain_key(key),
        single_line(value),
    ensures
        single_line(entry_line(key, value)),
{
    let line = entry_line(key, value);
    assert forall|j: int| !pair_at(line, j, '\r', '\n') by {
        if 0 <= j && j + 1 < line.len() {
            if j < key.len() {
                assert(line[j] == key[j]);
            } else if j < key.len() + 2 {
            } else {
                assert(!pair_at(value, j - key.len() - 2, '\r', '\n'));
                assert(line[j] == value[j - key.len() - 2]);
                assert(line[j + 1] == value[j - key.len() - 1]);
            }
        }
    }
}

/// The six reserved keys are of their kinds, and hold neither colon nor CR.
proof fn lemma_reserved_keys()
    ensures
        key_kind("Charset"@) == KeyKind::Charset,
        key_kind("ID"@) == KeyKind::Id,
        key_kind("BaseID"@) == KeyKind::BaseId,
        key_kind("Status"@) == KeyKind::Status,
        key_kind("SecurityLevel"@) == KeyKind::SecurityLevel,
        key_kind("Sender"@) == KeyKind::Sender,
        plain_key("Charset"@),
        plain_key("ID"@),
        plain_key("BaseID"@),
        plain_key("Status"@),
        plain_key("SecurityLevel"@),
        plain_key("Sender"@),
{
    reveal_strlit("Charset");
    reveal_strlit("ID");
    reveal_strlit("BaseID");
    reveal_strlit("Status");
    reveal_strlit("SecurityLevel");
    reveal_strlit("Sender");
    assert("Charset"@.len() == 7);
    assert("ID"@.len() == 2);
    assert("BaseID"@.len() == 6);
    assert("Status"@.len() == 6);
    assert("SecurityLevel"@.len() == 13);
    assert("Sender"@.len() == 6);
    assert("Status"@[0] != "BaseID"@[0]);
    assert("Sender"@[0] != "BaseID"@[0]);
    assert("Sender"@[1] != "Status"@[1]);
}

/// The key of a reference with a number that is not negative is a
/// reference key with that number, and holds neither colon nor CR.
proof fn lemma_reference_key(n: i32)
    requires
        n >= 0,
    ensures
        key_kind(reference_key(n)) == KeyKind::Reference(n),
        plain_key(reference_key(n)),
{
    reveal_strlit("Charset");
    reveal_strlit("ID");
    reveal_strlit("BaseID");
    reveal_strlit("Status");
    reveal_strlit("SecurityLevel");
    reveal_strlit("Sender");
    reveal_strlit("Reference");
    let key = reference_key(n);
    let word = "Reference"@;
    let digits = decimal(n as nat);
    lemma_decimal(n as nat);
    assert(key[0] == 'R');
    assert(key.subrange(0, word.len() as int) =~= word);
    assert(key.skip(word.len() as int) =~= digits);
    assert(reference_number(key) == Some(n as int));
    assert forall|i: int| 0 <= i < key.len() implies key[i] != ':' && key[i] != '\r' by {
        if i >= word.len() {
            assert(is_digit(digits[i - word.len()]));
        }
    }
}

/// `id` can stand in a legacy header: it is not empty and holds no space,
/// no slash and no CR LF.
pub open spec fn legacy_id(id: Seq<char>) -> bool {
    id.len() > 0 && !id.contains(' ') && !id.contains('/') && single_line(id)
}

/// What the header line of the canonical text says: method and version,
/// and the id where the request is a legacy one.
pub open spec fn wire_header(v: RequestView) -> HeaderView {
    HeaderView {
        method: v.method,
        version: v.version,
        id: if v.version == 30 {
            None
        } else {
            v.id
        },
    }
}

/// The tag of a legacy header reads as its id and version.
proof fn lemma_legacy_tag(method: Method, id: Seq<char>, minor: int)
    requires
        legacy_id(id),
        0 <= minor <= 9,
    ensures
        header_tag(method, id + seq!['/', '2', '.', digit_char(minor)]) == Some(
            HeaderView { method, version: 20 + minor, id: Some(id) },
        ),
{
    reveal_strlit("SHIORI/3.0");
    let tag = id + seq!['/', '2', '.', digit_char(minor)];
    assert("SHIORI/3.0"@.len() == 10);
    assert(tag != "SHIORI/3.0"@) by {
        if tag.len() == 10 {
            assert(tag[7] == '2');
            assert("SHIORI/3.0"@[7] == '3');
        }
    }
    assert forall|j: int| 0 <= j < id.len() implies tag[j] != '/' by {
        assert(tag[j] == id[j]);
        assert(id.contains(id[j]));
    }
    assert(tag[id.len() as int] == '/');
    lemma_first_char_is(tag, '/', 0, id.len() as int);
    assert(tag.take(id.len() as int) =~= id);
    let revision = tag.skip(id.len() as int + 1);
    assert(revision =~= seq!['2', '.', digit_char(minor)]);
    lemma_first_char_is(revision, '.', 0, 1);
    let major = revision.take(1);
    let last = revision.skip(2);
    assert(major =~= seq!['2']);
    assert(last =~= seq![digit_char(minor)]);
    assert(is_digit(major[0]));
    assert(is_digit(last[0]));
    assert(last.drop_last() =~= Seq::<char>::empty());
    assert(number(last) == number(Seq::<char>::empty()) * 10 + digit_value(last.last()));
    assert(number(last) == minor);
}

/// The header line of the canonical text reads as what it was written
/// from, and has no CR LF.
proof fn lemma_header_of_line(v: RequestView)
    requires
        v.version == 30 || (20 <= v.version <= 29 && v.id is Some && legacy_id(v.id->0)),
    ensures
        header(header_line(v)) == Some(wire_header(v)),
        single_line(header_line(v)),
        header_line(v).len() > 0,
{
    reveal_strlit("GET");
    reveal_strlit("NOTIFY");
    reveal_strlit("SHIORI/3.0");
    assert("GET"@.len() == 3);
    assert("NOTIFY"@.len() == 6);
    assert("SHIORI/3.0"@.len() == 10);
    let line = header_line(v);
    let word = method_word(v.method);
    let tag = header_tag_text(v);
    let n = word.len() as int;
    assert forall|j: int| 0 <= j < n implies line[j] != ' ' by {
        assert(line[j] == word[j]);
    }
    assert(line[n] == ' ');
    lemma_first_char_is(line, ' ', 0, n);
    assert(line.take(n) =~= word);
    assert(line.skip(n + 1) =~= tag);
    assert(method(word) == Some(v.method));
    if v.version != 30 {
        lemma_legacy_tag(v.method, v.id->0, v.version - 20);
    }
    assert forall|j: int| !pair_at(line, j, '\r', '\n') by {
        if 0 <= j && j + 1 < line.len() {
            if j < n {
                assert(line[j] == word[j]);
            } else if j == n {
            } else if v.version == 30 {
                assert(line[j] == "SHIORI/3.0"@[j - n - 1]);
            } else {
                let id = v.id->0;
                if j + 1 < n + 1 + id.len() {
                    assert(!pair_at(id, j - n - 1, '\r', '\n'));
                    assert(line[j] == id[j - n - 1]);
                    assert(line[j + 1] == id[j - n]);
                } else if j < n + 1 + id.len() {
                    assert(line[j + 1] == '/');
                } else {
                    assert(line[j] != '\r');
                }
            }
        }
    }
}

/// `req` after the key-value lines of `entries`, one after the other.
pub open spec fn record_all(req: RequestView, entries: Seq<(Seq<char>, Seq<char>)>) -> RequestView
    decreases entries.len(),
{
    if entries.len() == 0 {
        req
    } else {
        record_all(req.record(entries[0].0, entries[0].1), entries.skip(1))
    }
}

/// The key-value lines of `entries`.
pub open spec fn entry_lines(entries: Seq<(Seq<char>, Seq<char>)>) -> Seq<Seq<char>> {
    Seq::new(entries.len(), |i: int| entry_line(entries[i].0, entries[i].1))
}

/// Every key of `entries` holds neither colon nor CR, and no value holds
/// CR LF.
pub open spec fn plain_entries(entries: Seq<(Seq<char>, Seq<char>)>) -> bool {
    forall|i: int|
        0 <= i < entries.len() ==> plain_key((#[trigger] entries[i]).0) && single_line(
            entries[i].1,
        )
}

/// Lines written from entries, with an empty line behind them, are read
/// as those entries.
proof fn lemma_read_entries(
    ls: Seq<Seq<char>>,
    i: int,
    req: RequestView,
    entries: Seq<(Seq<char>, Seq<char>)>,
)
    requires
        0 <= i,
        i + entries.len() < ls.len(),
        plain_entries(entries),
        forall|k: int| 0 <= k < entries.len() ==> ls[i + k] == entry_line(
            (#[trigger] entries[k]).0,
            entries[k].1,
        ),
        ls[i + entries.len()].len() == 0,
    ensures
        read_entries(ls, i, req) == Ok::<RequestView, ParseErrorView>(record_all(req, entries)),
    decreases entries.len(),
{
    if entries.len() > 0 {
        let key = entries[0].0;
        let value = entries[0].1;
        assert(ls[i] == entry_line(key, value));
        lemma_key_value_of_entry(key, value);
        let rest = entries.skip(1);
        assert forall|k: int| 0 <= k < rest.len() implies ls[i + 1 + k] == entry_line(
            (#[trigger] rest[k]).0,
            rest[k].1,
        ) by {
            assert(rest[k] == entries[k + 1]);
        }
        assert forall|k: int| 0 <= k < rest.len() implies plain_key((#[trigger] rest[k]).0)
            && single_line(rest[k].1) by {
            assert(rest[k] == entries[k + 1]);
        }
        lemma_read_entries(ls, i + 1, req.record(key, value), rest);
    }
}

/// Recording two lists one after the other is recording them joined.
proof fn lemma_record_all_concat(
    req: RequestView,
    a: Seq<(Seq<char>, Seq<char>)>,
    b: Seq<(Seq<char>, Seq<char>)>,
)
    ensures
        record_all(req, a + b) == record_all(record_all(req, a), b),
    decreases a.len(),
{
    if a.len() == 0 {
        assert(a + b =~= b);
    } else {
        assert((a + b).skip(1) =~= a.skip(1) + b);
        assert((a + b)[0] == a[0]);
        lemma_record_all_concat(req.record(a[0].0, a[0].1), a.skip(1), b);
    }
}

/// The entry of a field under its reserved key: none where the field is
/// not set.
pub open spec fn field_entries(key: Seq<char>, field: Option<Seq<char>>) -> Seq<
    (Seq<char>, Seq<char>),
> {
    match field {
        Some(value) => seq![(key, value)],
        None => Seq::empty(),
    }
}

/// The entries of the references.
pub open spec fn reference_entries(reference: Seq<(i32, Seq<char>)>) -> Seq<
    (Seq<char>, Seq<char>),
> {
    Seq::new(reference.len(), |i: int| (reference_key(reference[i].0), reference[i].1))
}

/// Key and value of each line that the canonical text has behind its
/// header.
pub open spec fn wire_entries(v: RequestView) -> Seq<(Seq<char>, Seq<char>)> {
    field_entries("Charset"@, v.charset) + field_entries(
        "ID"@,
        if v.version == 30 {
            v.id
        } else {
            None
        },
    ) + field_entries("BaseID"@, v.base_id) + field_entries("Status"@, v.status) + field_entries(
        "SecurityLevel"@,
        v.security_level,
    ) + field_entries("Sender"@, v.sender) + reference_entries(v.reference)
}

/// A field is not set, or is set to a value without CR LF.
pub open spec fn field_fits(field: Option<Seq<char>>) -> bool {
    field matches Some(value) ==> single_line(value)
}

/// The structured fields of `v` can be written and read again: the version
/// is 30 or one of 20 to 29; a legacy request has an id that can stand in
/// its header; no value holds CR LF; no reference has a negative number.
pub open spec fn canonical(v: RequestView) -> bool {
    &&& 20 <= v.version <= 30
    &&& v.version != 30 ==> v.id is Some && legacy_id(v.id->0)
    &&& field_fits(v.id)
    &&& field_fits(v.sender)
    &&& field_fits(v.security_level)
    &&& field_fits(v.charset)
    &&& field_fits(v.status)
    &&& field_fits(v.base_id)
    &&& forall|i: int|
        0 <= i < v.reference.len() ==> (#[trigger] v.reference[i]).0 >= 0 && single_line(
            v.reference[i].1,
        )
}

/// The line of a field behind the lines of entries: the lines of the
/// entries with the field's entry behind them.
proof fn lemma_field_lines(
    h: Seq<Seq<char>>,
    e: Seq<(Seq<char>, Seq<char>)>,
    key: Seq<char>,
    field: Option<Seq<char>>,
)
    ensures
        h + entry_lines(e) + field_lines(key, field) == h + entry_lines(
            e + field_entries(key, field),
        ),
{
    assert(h + entry_lines(e) + field_lines(key, field) =~= h + entry_lines(
        e + field_entries(key, field),
    ));
}

/// The lines of the references behind the lines of entries: the lines of
/// the entries with those of the references behind them.
proof fn lemma_reference_lines(
    h: Seq<Seq<char>>,
    e: Seq<(Seq<char>, Seq<char>)>,
    reference: Seq<(i32, Seq<char>)>,
)
    ensures
        h + entry_lines(e) + reference_lines(reference) == h + entry_lines(
            e + reference_entries(reference),
        ),
{
    assert(h + entry_lines(e) + reference_lines(reference) =~= h + entry_lines(
        e + reference_entries(reference),
    ));
}

/// The lines of the canonical text are its header line and the lines of
/// its entries.
proof fn lemma_wire_lines(v: RequestView)
    ensures
        wire_lines(v) == seq![header_line(v)] + entry_lines(wire_entries(v)),
{
    let id = if v.version == 30 {
        v.id
    } else {
        None
    };
    let h = seq![header_line(v)];
    let e0 = Seq::<(Seq<char>, Seq<char>)>::empty();
    let e1 = field_entries("Charset"@, v.charset);
    let e2 = e1 + field_entries("ID"@, id);
    let e3 = e2 + field_entries("BaseID"@, v.base_id);
    let e4 = e3 + field_entries("Status"@, v.status);
    let e5 = e4 + field_entries("SecurityLevel"@, v.security_level);
    let e6 = e5 + field_entries("Sender"@, v.sender);
    assert(h + field_lines("Charset"@, v.charset) == h + entry_lines(e1)) by {
        lemma_field_lines(h, e0, "Charset"@, v.charset);
        assert(h + entry_lines(e0) =~= h);
        assert(e0 + e1 =~= e1);
    }
    lemma_field_lines(h, e1, "ID"@, id);
    lemma_field_lines(h, e2, "BaseID"@, v.base_id);
    lemma_field_lines(h, e3, "Status"@, v.status);
    lemma_field_lines(h, e4, "SecurityLevel"@, v.security_level);
    lemma_field_lines(h, e5, "Sender"@, v.sender);
    lemma_reference_lines(h, e6, v.reference);
}

/// The entries of the canonical text of a request that can be written
/// have plain keys and values without CR LF.
proof fn lemma_wire_entries_plain(v: RequestView)
    requires
        canonical(v),
    ensures
        plain_entries(wire_entries(v)),
{
    lemma_reserved_keys();
    let id = if v.version == 30 {
        v.id
    } else {
        None
    };
    let e1 = field_entries("Charset"@, v.charset);
    let e2 = e1 + field_entries("ID"@, id);
    let e3 = e2 + field_entries("BaseID"@, v.base_id);
    let e4 = e3 + field_entries("Status"@, v.status);
    let e5 = e4 + field_entries("SecurityLevel"@, v.security_level);
    let e6 = e5 + field_entries("Sender"@, v.sender);
    let refs = reference_entries(v.reference);
    assert(plain_entries(e1));
    assert(plain_entries(e2));
    assert(plain_entries(e3));
    assert(plain_entries(e4));
    assert(plain_entries(e5));
    assert(plain_entries(e6));
    assert forall|i: int| 0 <= i < refs.len() implies plain_key((#[trigger] refs[i]).0)
        && single_line(refs[i].1) by {
        assert(v.reference[i].0 >= 0);
        lemma_reference_key(v.reference[i].0);
    }
    assert(plain_entries(e6 + refs));
}

/// Two requests have the same structured fields: version, method, the six
/// reserved fields and the references.
pub open spec fn same_fields(a: RequestView, b: RequestView) -> bool {
    &&& a.version == b.version
    &&& a.method == b.method
    &&& a.id == b.id
    &&& a.sender == b.sender
    &&& a.security_level == b.security_level
    &&& a.charset == b.charset
    &&& a.status == b.status
    &&& a.base_id == b.base_id
    &&& a.reference == b.reference
}

/// Recording the entry of a field records the field's line, if it has one.
proof fn lemma_record_field(req: RequestView, key: Seq<char>, field: Option<Seq<char>>)
    ensures
        record_all(req, field_entries(key, field)) == match field {
            Some(value) => req.record(key, value),
            None => req,
        },
{
    let entries = field_entries(key, field);
    if field is Some {
        assert(entries.skip(1) =~= Seq::<(Seq<char>, Seq<char>)>::empty());
        assert(record_all(req.record(key, field->0), entries.skip(1)) == req.record(
            key,
            field->0,
        ));
    }
}

/// Recording the entries of references appends the references, and leaves
/// the other structured fields and the text as they are.
proof fn lemma_record_references(req: RequestView, reference: Seq<(i32, Seq<char>)>)
    requires
        forall|i: int| 0 <= i < reference.len() ==> (#[trigger] reference[i]).0 >= 0,
    ensures
        record_all(req, reference_entries(reference)).reference == req.reference + reference,
        record_all(req, reference_entries(reference)).text == req.text,
        same_fields(
            record_all(req, reference_entries(reference)),
            RequestView { reference: req.reference + reference, ..req },
        ),
    decreases reference.len(),
{
    let entries = reference_entries(reference);
    if reference.len() == 0 {
        assert(req.reference + reference =~= req.reference);
    } else {
        let n = reference[0].0;
        let value = reference[0].1;
        lemma_reference_key(n);
        let next = req.record(reference_key(n), value);
        assert(entries[0] == (reference_key(n), value));
        assert(entries.skip(1) =~= reference_entries(reference.skip(1)));
        assert forall|i: int| 0 <= i < reference.skip(1).len() implies (
        #[trigger] reference.skip(1)[i]).0 >= 0 by {
            assert(reference.skip(1)[i] == reference[i + 1]);
        }
        lemma_record_references(next, reference.skip(1));
        assert(next.reference + reference.skip(1) =~= req.reference + reference);
    }
}

/// Recording the entries of the canonical text into the request that its
/// header starts gives the structured fields back.
proof fn lemma_record_wire_entries(text: Seq<char>, v: RequestView)
    requires
        canonical(v),
    ensures
        same_fields(record_all(RequestView::start(text, wire_header(v)), wire_entries(v)), v),
        record_all(RequestView::start(text, wire_header(v)), wire_entries(v)).text == text,
{
    lemma_reserved_keys();
    let id = if v.version == 30 {
        v.id
    } else {
        None
    };
    let f1 = field_entries("Charset"@, v.charset);
    let f2 = field_entries("ID"@, id);
    let f3 = field_entries("BaseID"@, v.base_id);
    let f4 = field_entries("Status"@, v.status);
    let f5 = field_entries("SecurityLevel"@, v.security_level);
    let f6 = field_entries("Sender"@, v.sender);
    let f7 = reference_entries(v.reference);
    let r0 = RequestView::start(text, wire_header(v));
    let r1 = record_all(r0, f1);
    let r2 = record_all(r1, f2);
    let r3 = record_all(r2, f3);
    let r4 = record_all(r3, f4);
    let r5 = record_all(r4, f5);
    let r6 = record_all(r5, f6);
    let r7 = record_all(r6, f7);
    lemma_record_all_concat(r0, f1, f2);
    lemma_record_all_concat(r0, f1 + f2, f3);
    lemma_record_all_concat(r0, f1 + f2 + f3, f4);
    lemma_record_all_concat(r0, f1 + f2 + f3 + f4, f5);
    lemma_record_all_concat(r0, f1 + f2 + f3 + f4 + f5, f6);
    lemma_record_all_concat(r0, f1 + f2 + f3 + f4 + f5 + f6, f7);
    assert(record_all(r0, wire_entries(v)) == r7);
    lemma_record_field(r0, "Charset"@, v.charset);
    assert(r1 == RequestView { charset: v.charset, dic: r1.dic, key_values: r1.key_values, ..r0 });
    lemma_record_field(r1, "ID"@, id);
    assert(r2 == RequestView { id: v.id, dic: r2.dic, key_values: r2.key_values, ..r1 });
    lemma_record_field(r2, "BaseID"@, v.base_id);
    assert(r3 == RequestView { base_id: v.base_id, dic: r3.dic, key_values: r3.key_values, ..r2 });
    lemma_record_field(r3, "Status"@, v.status);
    assert(r4 == RequestView { status: v.status, dic: r4.dic, key_values: r4.key_values, ..r3 });
    lemma_record_field(r4, "SecurityLevel"@, v.security_level);
    assert(r5 == RequestView {
        security_level: v.security_level,
        dic: r5.dic,
        key_values: r5.key_values,
        ..r4
    });
    lemma_record_field(r5, "Sender"@, v.sender);
    assert(r6 == RequestView { sender: v.sender, dic: r6.dic, key_values: r6.key_values, ..r5 });
    lemma_record_references(r6, v.reference);
    assert(r6.reference + v.reference =~= v.reference);
}

/// Decoding the canonical text of a request gives its structured fields
/// back: for every request whose fields can be written (`canonical`), the
/// text decodes, and version, method, id, sender, security level, charset,
/// status, base id and references of the result are those of the request.
pub proof fn lemma_wire_round_trip(v: RequestView)
    requires
        canonical(v),
    ensures
        decode(wire_text(v)) is Ok,
        same_fields(decode(wire_text(v))->Ok_0, v),
        decode(wire_text(v))->Ok_0.text == wire_text(v),
{
    let text = wire_text(v);
    let entries = wire_entries(v);
    let blank = Seq::<char>::empty();
    lemma_wire_lines(v);
    lemma_header_of_line(v);
    lemma_wire_entries_plain(v);
    assert forall|i: int| 0 <= i < wire_lines(v).len() implies single_line(
        #[trigger] wire_lines(v)[i],
    ) by {
        if i > 0 {
            assert(wire_lines(v)[i] == entry_line(entries[i - 1].0, entries[i - 1].1));
            lemma_entry_single_line(entries[i - 1].0, entries[i - 1].1);
        }
    }
    lemma_lines_of_join(wire_lines(v), seq!['\r', '\n']);
    lemma_lines_of_blank();
    let ls = lines(text);
    assert(ls == wire_lines(v) + seq![blank, blank]);
    assert(ls[0] == header_line(v));
    let start = RequestView::start(text, wire_header(v));
    assert forall|k: int| 0 <= k < entries.len() implies ls[1 + k] == entry_line(
        (#[trigger] entries[k]).0,
        entries[k].1,
    ) by {
        assert(ls[1 + k] == wire_lines(v)[1 + k]);
    }
    assert(ls[1 + entries.len() as int] == blank);
    lemma_read_entries(ls, 1, start, entries);
    lemma_record_wire_entries(text, v);
}

/// A part of a text without CR LF has none.
proof fn lemma_part_single_line(s: Seq<char>, from: int, to: int)
    requires
        single_line(s),
        0 <= from <= to <= s.len(),
    ensures
        single_line(s.subrange(from, to)),
{
    let part = s.subrange(from, to);
    assert forall|j: int| !pair_at(part, j, '\r', '\n') by {
        if pair_at(part, j, '\r', '\n') {
            assert(pair_at(s, from + j, '\r', '\n'));
        }
    }
}

/// What a header line without CR LF says can be written and read again:
/// version 30 and no id, or a version from 20 to 29 and an id that can
/// stand in a legacy header.
proof fn lemma_header_canonical(line: Seq<char>)
    requires
        single_line(line),
    ensures
        header(line) matches Some(h) ==> (h.version == 30 && h.id is None) || (20 <= h.version
            <= 29 && h.id is Some && legacy_id(h.id->0)),
{
    if header(line) is Some {
        let h = header(line)->0;
        lemma_first_char_from(line, ' ', 0);
        let space = first_char(line, ' ');
        let tag = line.skip(space + 1);
        assert(tag =~= line.subrange(space + 1, line.len() as int));
        lemma_part_single_line(line, space + 1, line.len() as int);
        if tag != "SHIORI/3.0"@ {
            lemma_first_char_from(tag, '/', 0);
            let slash = first_char(tag, '/');
            let id = tag.take(slash);
            assert(id =~= tag.subrange(0, slash));
            lemma_part_single_line(tag, 0, slash);
            assert(h.id == Some(id));
            if id.contains('/') {
                let w = choose|i: int| 0 <= i < id.len() && id[i] == '/';
                assert(tag[w] == '/');
            }
        }
    }
}

/// One more line recorded, with a value without CR LF, leaves a request
/// one that can be written and read again.
proof fn lemma_record_canonical(req: RequestView, key: Seq<char>, value: Seq<char>)
    requires
        canonical(req),
        single_line(value),
    ensures
        canonical(req.record(key, value)),
{
    let next = req.record(key, value);
    match key_kind(key) {
        KeyKind::Reference(n) => {
            let digits = key.skip("Reference"@.len() as int);
            assert(reference_number(key) is Some);
            lemma_number_prefix(digits, 0);
            assert(n >= 0);
            assert forall|i: int| 0 <= i < next.reference.len() implies (
            #[trigger] next.reference[i]).0 >= 0 && single_line(next.reference[i].1) by {
                if i < req.reference.len() {
                    assert(next.reference[i] == req.reference[i]);
                }
            }
        },
        _ => {
            assert(next.reference == req.reference);
        },
    }
}

/// Reading lines without CR LF into a request that can be written and
/// read again gives such a request.
proof fn lemma_read_entries_canonical(ls: Seq<Seq<char>>, i: int, req: RequestView)
    requires
        canonical(req),
        forall|k: int| 0 <= k < ls.len() ==> single_line(#[trigger] ls[k]),
    ensures
        read_entries(ls, i, req) matches Ok(r) ==> canonical(r),
    decreases ls.len() - i,
{
    if i < 0 || i >= ls.len() || ls[i].len() == 0 {
    } else {
        match key_value(ls[i]) {
            None => {},
            Some((key, value)) => {
                let line = ls[i];
                lemma_first_pair_from(line, ':', ' ', 0);
                let at = first_pair(line, ':', ' ');
                assert(pair_at(line, at, ':', ' '));
                assert(value =~= line.subrange(at + 2, line.len() as int));
                lemma_part_single_line(line, at + 2, line.len() as int);
                lemma_record_canonical(req, key, value);
                lemma_read_entries_canonical(ls, i + 1, req.record(key, value));
            },
        }
    }
}

/// What a text decodes to can be written and read again: every decoded
/// request is `canonical`, so that `lemma_wire_round_trip` holds of it.
pub proof fn lemma_decode_canonical(text: Seq<char>)
    ensures
        decode(text) matches Ok(r) ==> canonical(r),
{
    let ls = lines(text);
    lemma_lines_rejoin(text);
    lemma_lines(text);
    lemma_header_canonical(ls[0]);
    match header(ls[0]) {
        None => {},
        Some(h) => {
            let start = RequestView::start(text, h);
            assert(canonical(start));
            lemma_read_entries_canonical(ls, 1, start);
        },
    }
}

/// Tells whether `text` holds no CR LF.
pub fn is_single_line(text: &str) -> (r: bool)
    ensures
        r == single_line(text@),
{
    let chars = collect_chars(text);
    let at = find_pair(chars.as_slice(), 0, chars.len(), '\r', '\n');
    proof {
        assert(chars@.subrange(0, chars.len() as int) =~= text@);
        lemma_first_pair_from(text@, '\r', '\n', 0);
        if at == chars.len() {
            assert forall|i: int| !pair_at(text@, i, '\r', '\n') by {}
        }
    }
    at == chars.len()
}

/// Tells whether `id` can stand in a legacy header.
pub fn is_legacy_id(id: &str) -> (r: bool)
    ensures
        r == legacy_id(id@),
{
    let chars = collect_chars(id);
    let n = chars.len();
    let space = find_char(chars.as_slice(), 0, n, ' ');
    let slash = find_char(chars.as_slice(), 0, n, '/');
    proof {
        assert(chars@.subrange(0, n as int) =~= id@);
        lemma_first_char_from(id@, ' ', 0);
        lemma_first_char_from(id@, '/', 0);
        if space < n {
            assert(id@.contains(id@[space as int]));
        }
        if slash < n {
            assert(id@.contains(id@[slash as int]));
        }
    }
    n > 0 && space == n && slash == n && is_single_line(id)
}

/// Tells whether `field` is not set, or set to a value without CR LF.
pub fn fits(field: &Option<String>) -> (r: bool)
    ensures
        r == field_fits(field.deep_view()),
{
    match field {
        Some(value) => is_single_line(value.as_str()),
        None => true,
    }
}

impl ShioriRequest {
    /// Tells whether the structured fields of this request can be written
    /// and read again.
    pub fn is_canonical(&self) -> (r: bool)
        ensures
            r == canonical(self@),
    {
        if self.version < 20 || self.version > 30 {
            return false;
        }
        if self.version != 30 {
            match &self.id {
                None => {
                    return false;
                },
                Some(id) => {
                    if !is_legacy_id(id.as_str()) {
                        return false;
                    }
                },
            }
        }
        if !(fits(&self.id) && fits(&self.sender) && fits(&self.security_level) && fits(
            &self.charset,
        ) && fits(&self.status) && fits(&self.base_id)) {
            return false;
        }
        let ghost reference = self@.reference;
        let mut i: usize = 0;
        while i < self.reference.len()
            invariant
                0 <= i <= self.reference@.len(),
                reference == self@.reference,
                reference.len() == self.reference@.len(),
                forall|k: int|
                    0 <= k < i ==> (#[trigger] reference[k]).0 >= 0 && single_line(reference[k].1),
            decreases self.reference@.len() - i,
        {
            assert(reference[i as int] == (self.reference@[i as int].0, self.reference@[i as int].1@));
            if self.reference[i].0 < 0 || !is_single_line(self.reference[i].1.as_str()) {
                return false;
            }
            i = i + 1;
        }
        true
    }
}

} // verus!
