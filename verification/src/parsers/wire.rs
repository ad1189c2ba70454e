//! The canonical text of a request: its structured fields written out so
//! that the decoder reads them again.

use crate::parsers::number::{decimal, digit_char, digit_of, push_decimal};
use crate::parsers::req::{RequestView, ShioriRequest};
use crate::parsers::shiori::{clamp, Method};
use vstd::prelude::*;
use vstd::string::*;

verus! {

/// The lines `ls`, each with CR LF behind it, in one text.
pub open spec fn join_lines(ls: Seq<Seq<char>>) -> Seq<char>
    decreases ls.len(),
{
    if ls.len() == 0 {
        Seq::empty()
    } else {
        join_lines(ls.drop_last()) + ls.last() + seq!['\r', '\n']
    }
}

/// The key-value line of `key` and `value`.
pub open spec fn entry_line(key: Seq<char>, value: Seq<char>) -> Seq<char> {
    key + seq![':', ' '] + value
}

/// The line of a field under its reserved key: none where the field is not
/// set.
pub open spec fn field_lines(key: Seq<char>, field: Option<Seq<char>>) -> Seq<Seq<char>> {
    match field {
        Some(value) => seq![entry_line(key, value)],
        None => Seq::empty(),
    }
}

/// The number of a reference as it is written: a negative one as 0.
pub open spec fn reference_index(n: i32) -> nat {
    if n < 0 {
        0
    } else {
        n as nat
    }
}

/// The key of the reference with number `n`.
pub open spec fn reference_key(n: i32) -> Seq<char> {
    "Reference"@ + decimal(reference_index(n))
}

/// The lines of the references, one each, in their order.
pub open spec fn reference_lines(reference: Seq<(i32, Seq<char>)>) -> Seq<Seq<char>> {
    Seq::new(reference.len(), |i: int| entry_line(reference_key(reference[i].0), reference[i].1))
}

/// The word of a method.
pub open spec fn method_word(method: Method) -> Seq<char> {
    match method {
        Method::Get => "GET"@,
        Method::Notify => "NOTIFY"@,
    }
}

/// The tag of the header: `SHIORI/3.0` for version 30; for any other
/// version the id, `/2.` and the version's last digit, the version being
/// held between 20 and 29.
pub open spec fn header_tag_text(v: RequestView) -> Seq<char> {
    if v.version == 30 {
        "SHIORI/3.0"@
    } else {
        let id = match v.id {
            Some(id) => id,
            None => Seq::empty(),
        };
        id + seq!['/', '2', '.', digit_char(clamp(v.version - 20, 0, 9))]
    }
}

/// The header line: the word of the method, a space, and the tag.
pub open spec fn header_line(v: RequestView) -> Seq<char> {
    method_word(v.method) + seq![' '] + header_tag_text(v)
}

/// The lines of the canonical text: the header, the fields that are set in
/// the order `Charset`, `ID`, `BaseID`, `Status`, `SecurityLevel`, `Sender`,
/// and the references. A legacy request has no `ID` line: its header
/// carries the id.
pub open spec fn wire_lines(v: RequestView) -> Seq<Seq<char>> {
    seq![header_line(v)] + field_lines("Charset"@, v.charset) + field_lines(
        "ID"@,
        if v.version == 30 {
            v.id
        } else {
            None
        },
    ) + field_lines("BaseID"@, v.base_id) + field_lines("Status"@, v.status) + field_lines(
        "SecurityLevel"@,
        v.security_level,
    ) + field_lines("Sender"@, v.sender) + reference_lines(v.reference)
}

/// The canonical text of a request: its lines and an empty line.
pub open spec fn wire_text(v: RequestView) -> Seq<char> {
    join_lines(wire_lines(v)) + seq!['\r', '\n']
}

/// One more line behind a text of lines.
pub proof fn lemma_join_push(ls: Seq<Seq<char>>, line: Seq<char>)
    ensures
        join_lines(ls.push(line)) == join_lines(ls) + line + seq!['\r', '\n'],
{
    assert(ls.push(line).drop_last() =~= ls);
}

/// Appends the line of `field` under `key` to `out`, if the field is set.
fn push_field(out: &mut String, key: &str, field: &Option<String>, Ghost(ls): Ghost<Seq<Seq<char>>>)
    requires
        old(out)@ == join_lines(ls),
    ensures
        final(out)@ == join_lines(ls + field_lines(key@, field.deep_view())),
{
    match field {
        Some(value) => {
            out.append(key);
            out.push(':');
            out.push(' ');
            out.append(value.as_str());
            out.push('\r');
            out.push('\n');
            proof {
                let line = entry_line(key@, value@);
                lemma_join_push(ls, line);
                assert(ls + field_lines(key@, field.deep_view()) =~= ls.push(line));
                assert(out@ =~= join_lines(ls) + line + seq!['\r', '\n']);
            }
        },
        None => {
            assert(ls + field_lines(key@, field.deep_view()) =~= ls);
        },
    }
}

impl ShioriRequest {
    /// Writes the canonical text of this request.
    pub fn to_wire(&self) -> (r: String)
        ensures
            r@ == wire_text(self@),
    {
        let mut out = String::new();
        match self.method {
            Method::Get => out.append("GET"),
            Method::Notify => out.append("NOTIFY"),
        }
        out.push(' ');
        if self.version == 30 {
            out.append("SHIORI/3.0");
        } else {
            match &self.id {
                Some(id) => out.append(id.as_str()),
                None => {},
            }
            let minor: u64 = if self.version < 20 {
                0
            } else if self.version > 29 {
                9
            } else {
                (self.version - 20) as u64
            };
            out.push('/');
            out.push('2');
            out.push('.');
            out.push(digit_of(minor));
        }
        assert(out@ =~= header_line(self@));
        out.push('\r');
        out.push('\n');
        let ghost v = self@;
        let ghost mut ls = seq![header_line(v)];
        proof {
            lemma_join_push(Seq::empty(), header_line(v));
            assert(Seq::<Seq<char>>::empty().push(header_line(v)) =~= ls);
            assert(out@ =~= join_lines(ls));
        }
        push_field(&mut out, "Charset", &self.charset, Ghost(ls));
        proof {
            ls = ls + field_lines("Charset"@, v.charset);
        }
        if self.version == 30 {
            push_field(&mut out, "ID", &self.id, Ghost(ls));
        }
        proof {
            ls = ls + field_lines(
                "ID"@,
                if v.version == 30 {
                    v.id
                } else {
                    None
                },
            );
            assert(v.version != 30 ==> ls + Seq::<Seq<char>>::empty() =~= ls);
        }
        push_field(&mut out, "BaseID", &self.base_id, Ghost(ls));
        proof {
            ls = ls + field_lines("BaseID"@, v.base_id);
        }
        push_field(&mut out, "Status", &self.status, Ghost(ls));
        proof {
            ls = ls + field_lines("Status"@, v.status);
        }
        push_field(&mut out, "SecurityLevel", &self.security_level, Ghost(ls));
        proof {
            ls = ls + field_lines("SecurityLevel"@, v.security_level);
        }
        push_field(&mut out, "Sender", &self.sender, Ghost(ls));
        proof {
            ls = ls + field_lines("Sender"@, v.sender);
        }
        let ghost fields = ls;
        let mut i: usize = 0;
        while i < self.reference.len()
            invariant
                0 <= i <= self.reference@.len(),
                v == self@,
                out@ == join_lines(ls),
                ls == fields + reference_lines(v.reference).take(i as int),
            decreases self.reference@.len() - i,
        {
            let n: i32 = self.reference[i].0;
            let index: u64 = if n < 0 {
                0
            } else {
                n as u64
            };
            let ghost before = out@;
            out.append("Reference");
            push_decimal(&mut out, index);
            out.push(':');
            out.push(' ');
            out.append(self.reference[i].1.as_str());
            out.push('\r');
            out.push('\n');
            proof {
                let line = reference_lines(v.reference)[i as int];
                assert(line == entry_line(reference_key(n), self.reference@[i as int].1@));
                lemma_join_push(ls, line);
                assert(out@ =~= before + line + seq!['\r', '\n']);
                assert(reference_lines(v.reference).take(i + 1) =~= reference_lines(
                    v.reference,
                ).take(i as int).push(line));
                ls = ls.push(line);
                assert(ls =~= fields + reference_lines(v.reference).take(i + 1));
            }
            i = i + 1;
        }
        proof {
            assert(reference_lines(v.reference).take(i as int) =~= reference_lines(v.reference));
            assert(ls =~= wire_lines(v));
        }
        out.push('\r');
        out.push('\n');
        assert(out@ =~= wire_text(v));
        out
    }
}

} // verus!
