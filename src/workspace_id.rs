//! The identifier of a managed workspace and its textual form
//! `<group>-<slot>-<index>`.
use crate::error::EngineError;
use crate::text::{
    all_digits, decimal, digits_value, find_char, find_from, is_ascii_digit, lemma_decimal_digits,
    lemma_find_from, parse_digits, push_char, push_decimal, push_signed_decimal, signed_decimal,
};
use vstd::prelude::*;
use vstd::string::{StrSliceExecFns, StringExecFns};

verus! {

/// Whether `c` belongs to the regex class `\w` (Unicode word characters).
pub uninterp spec fn is_word_char(c: char) -> bool;

/// Relies on the `regex` crate: whether `c` matches `^\w$`. Its documentation
/// defines `\w` as `\p{Alphabetic} + \p{M} + \d + \p{Pc} + \p{Join_Control}`,
/// which holds the ASCII letters, digits and '_' and not '-'.
#[verifier::external_body]
fn word_char(c: char) -> (r: bool)
    ensures
        r == is_word_char(c),
        c == '-' ==> !r,
        ('a' <= c <= 'z' || 'A' <= c <= 'Z' || '0' <= c <= '9' || c == '_') ==> r,
{
    regex::Regex::new(r"^\w$").unwrap().is_match(&c.to_string())
}

/// A monitor group name as the identifier grammar accepts it: one or more word
/// characters (none of which is a '-', the separator of the fields).
pub open spec fn is_group_name(s: Seq<char>) -> bool {
    s.len() > 0 && forall|i: int| 0 <= i < s.len() ==> is_word_char(#[trigger] s[i]) && s[i] != '-'
}

pub open spec fn is_numeral(s: Seq<char>) -> bool {
    s.len() > 0 && all_digits(s)
}

/// The mathematical content of a workspace identifier.
pub struct IdView {
    pub group: Seq<char>,
    pub slot: nat,
    pub index: int,
}

/// Textual form of an identifier.
pub open spec fn encode(v: IdView) -> Seq<char> {
    v.group + seq!['-'] + decimal(v.slot) + seq!['-'] + signed_decimal(v.index)
}

/// Decoding of a workspace name by the grammar `^(\w+)-(\d+)-(-?\d+)$`, where the
/// digits are ASCII digits. `None` for a name outside the grammar, and for one whose
/// slot does not fit `usize` or whose index does not fit `i32`.
pub open spec fn decode(s: Seq<char>) -> Option<IdView> {
    decode_with(s, false)
}

/// An ASCII word character: a letter, a digit or '_'.
pub open spec fn is_ascii_word_char(c: char) -> bool {
    ('a' <= c <= 'z') || ('A' <= c <= 'Z') || ('0' <= c <= '9') || c == '_'
}

/// A group name made of ASCII word characters only.
pub open spec fn is_ascii_group_name(s: Seq<char>) -> bool {
    s.len() > 0 && forall|i: int| 0 <= i < s.len() ==> is_ascii_word_char(#[trigger] s[i])
}

/// Decoding by the same grammar with the group part restricted to ASCII word
/// characters; whatever it decodes, `decode` decodes the same way.
pub open spec fn decode_ascii(s: Seq<char>) -> Option<IdView> {
    decode_with(s, true)
}

/// The grammar of identifiers, with the group part checked by `is_group_name`,
/// or by `is_ascii_group_name` when `ascii` holds.
pub open spec fn decode_with(s: Seq<char>, ascii: bool) -> Option<IdView> {
    let a = find_from(s, '-', 0);
    let b = find_from(s, '-', a + 1);
    if a < s.len() && b < s.len() {
        let g = s.subrange(0, a);
        let slot = s.subrange(a + 1, b);
        let tail = s.subrange(b + 1, s.len() as int);
        let neg = tail.len() > 0 && tail[0] == '-';
        let mag = if neg {
            tail.skip(1)
        } else {
            tail
        };
        if (if ascii {
            is_ascii_group_name(g)
        } else {
            is_group_name(g)
        }) && is_numeral(slot) && is_numeral(mag) && digits_value(slot)
            <= usize::MAX && (if neg {
            digits_value(mag) <= 0x8000_0000
        } else {
            digits_value(mag) <= 0x7fff_ffff
        }) {
            Some(
                IdView {
                    group: g,
                    slot: digits_value(slot),
                    index: if neg {
                        -digits_value(mag)
                    } else {
                        digits_value(mag) as int
                    },
                },
            )
        } else {
            None
        }
    } else {
        None
    }
}

/// Identifier of a managed workspace: monitor group name, slot of the monitor
/// within the group, and index of the workspace group.
#[derive(Debug, Clone)]
pub struct WorkspaceId {
    monitor_group_name: String,
    monitor_index: usize,
    workspace_group_index: i32,
}

impl View for WorkspaceId {
    type V = IdView;

    closed spec fn view(&self) -> IdView {
        IdView {
            group: self.monitor_group_name@,
            slot: self.monitor_index as nat,
            index: self.workspace_group_index as int,
        }
    }
}

impl WorkspaceId {
    pub fn new(group_name: &str, monitor_index: usize, workspace_group_index: i32) -> (r: Self)
        ensures
            r@ == (IdView {
                group: group_name@,
                slot: monitor_index as nat,
                index: workspace_group_index as int,
            }),
    {
        WorkspaceId {
            monitor_group_name: String::from_str(group_name),
            monitor_index,
            workspace_group_index,
        }
    }

    /// Decodes a workspace name; `None` marks an unmanaged workspace.
    pub fn parse_safe(name: &str) -> (r: Option<WorkspaceId>)
        ensures
            r is Some <==> decode(name@) is Some,
            r is Some ==> r->0@ == decode(name@)->0,
            decode_ascii(name@) is Some ==> r is Some && r->0@ == decode_ascii(name@)->0,
    {
        let ghost s = name@;
        let len = name.unicode_len();
        let a = find_char(name, '-', 0);
        if a == len {
            return None;
        }
        let b = find_char(name, '-', a + 1);
        if b == len {
            return None;
        }
        let ghost g = s.subrange(0, a as int);
        let ghost tail = s.subrange(b + 1, s.len() as int);
        if a == 0 {
            return None;
        }
        let mut i: usize = 0;
        while i < a
            invariant
                a < len == s.len(),
                b < len,
                a as int == find_from(s, '-', 0),
                b as int == find_from(s, '-', a + 1),
                s == name@,
                g == s.subrange(0, a as int),
                0 <= i <= a,
                forall|k: int| 0 <= k < i ==> is_word_char(#[trigger] g[k]) && g[k] != '-',
            decreases a - i,
        {
            let c = name.get_char(i);
            if !word_char(c) {
                assert(g[i as int] == c);
                assert(!is_group_name(g));
                assert(!is_ascii_group_name(g));
                return None;
            }
            i += 1;
        }
        assert(is_group_name(g));
        if b == a + 1 {
            return None;
        }
        let slot = match parse_digits(name, a + 1, b) {
            None => {
                return None;
            },
            Some(v) => v,
        };
        if slot > usize::MAX as u64 {
            return None;
        }
        let neg = b + 1 < len && name.get_char(b + 1) == '-';
        let start = if neg {
            b + 2
        } else {
            b + 1
        };
        assert(neg == (tail.len() > 0 && tail[0] == '-'));
        let ghost mag = if neg {
            tail.skip(1)
        } else {
            tail
        };
        assert(mag =~= s.subrange(start as int, len as int));
        if start == len {
            return None;
        }
        let m = match parse_digits(name, start, len) {
            None => {
                return None;
            },
            Some(v) => v,
        };
        let index: i32 = if neg {
            if m > 0x8000_0000 {
                return None;
            }
            (-(m as i64)) as i32
        } else {
            if m > 0x7fff_ffff {
                return None;
            }
            m as i32
        };
        let group = String::from_str(name.substring_char(0, a));
        Some(WorkspaceId { monitor_group_name: group, monitor_index: slot as usize, workspace_group_index: index })
    }

    /// Decodes the name of a workspace that must be managed.
    pub fn parse(name: &str) -> (r: Result<WorkspaceId, EngineError>)
        ensures
            r is Ok <==> decode(name@) is Some,
            r is Ok ==> r->Ok_0@ == decode(name@)->0,
            r is Err ==> r->Err_0 == EngineError::ParseError,
    {
        match Self::parse_safe(name) {
            Some(id) => Ok(id),
            None => Err(EngineError::ParseError),
        }
    }

    /// The textual form of the identifier.
    pub fn to_string(&self) -> (r: String)
        ensures
            r@ == encode(self@),
    {
        let mut out = self.monitor_group_name.clone();
        push_char(&mut out, '-');
        push_decimal(&mut out, self.monitor_index as u64);
        push_char(&mut out, '-');
        push_signed_decimal(&mut out, self.workspace_group_index);
        assert(out@ =~= encode(self@));
        out
    }

    /// Returns the index of the workspace group.
    pub fn get_index(&self) -> (r: i32)
        ensures
            r as int == self@.index,
    {
        self.workspace_group_index
    }

    /// Returns the name of the monitor group.
    pub fn get_monitor_group_name(&self) -> (r: &str)
        ensures
            r@ == self@.group,
    {
        self.monitor_group_name.as_str()
    }

    /// Returns the slot of the monitor within its group.
    pub fn get_monitor_index(&self) -> (r: usize)
        ensures
            r as nat == self@.slot,
    {
        self.monitor_index
    }
}

/// Decoding the textual form of an identifier gives the identifier back, for every
/// group name made of word characters, every slot and every index.
pub proof fn lemma_decode_encode(group: Seq<char>, slot: usize, index: i32)
    requires
        is_group_name(group),
    ensures
        decode(encode(IdView { group, slot: slot as nat, index: index as int })) == Some(
            IdView { group, slot: slot as nat, index: index as int },
        ),
{
    let v = IdView { group, slot: slot as nat, index: index as int };
    let d = decimal(slot as nat);
    let t = signed_decimal(index as int);
    let s = encode(v);
    lemma_decimal_digits(slot as nat);
    let a = group.len() as int;
    let b = a + 1 + d.len();
    assert(s[a] == '-');
    assert(s[b] == '-');
    assert forall|k: int| 0 <= k < a implies s[k] != '-' by {
        assert(s[k] == group[k]);
    }
    lemma_find_from(s, '-', 0, a);
    assert forall|k: int| a + 1 <= k < b implies s[k] != '-' by {
        assert(s[k] == d[k - a - 1]);
        assert(is_ascii_digit(d[k - a - 1]));
    }
    lemma_find_from(s, '-', a + 1, b);
    assert(s.subrange(0, a) =~= group);
    assert(s.subrange(a + 1, b) =~= d);
    let tail = s.subrange(b + 1, s.len() as int);
    assert(tail =~= t);
    if index < 0 {
        let m = decimal((-index) as nat);
        lemma_decimal_digits((-index) as nat);
        assert(tail.skip(1) =~= m);
    } else {
        lemma_decimal_digits(index as nat);
        assert(is_ascii_digit(t[0]));
    }
}

} // verus!
