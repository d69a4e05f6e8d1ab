//! Destination tokens: an absolute index (`7`) or a signed step (`+2`, `-1`)
//! from the workspace group a monitor group currently shows.
use crate::error::EngineError;
use crate::snapshot::{current_index, find_current_index, WorkspaceInfo};
use crate::text::{digits_value, is_ascii_digit, parse_digits};
use vstd::prelude::*;
use vstd::string::StrSliceExecFns;

verus! {

pub open spec fn is_sign(c: char) -> bool {
    c == '-' || c == '+'
}

/// Whether the pattern `([-+])?(\d+)` has a match that starts at `p`.
pub open spec fn match_at(s: Seq<char>, p: int) -> bool {
    0 <= p < s.len() && (is_ascii_digit(s[p]) || (is_sign(s[p]) && p + 1 < s.len()
        && is_ascii_digit(s[p + 1])))
}

/// The leftmost start of a match at or after `p`, or `s.len()`.
pub open spec fn match_start(s: Seq<char>, p: int) -> int
    decreases s.len() - p,
{
    if p < 0 || p >= s.len() {
        s.len() as int
    } else if match_at(s, p) {
        p
    } else {
        match_start(s, p + 1)
    }
}

/// End of the run of digits that starts at `p`.
pub open spec fn digits_end(s: Seq<char>, p: int) -> int
    decreases s.len() - p,
{
    if 0 <= p < s.len() && is_ascii_digit(s[p]) {
        digits_end(s, p + 1)
    } else {
        p
    }
}

/// A parsed destination token.
pub enum Step {
    Absolute(nat),
    Forward(nat),
    Backward(nat),
}

/// The leftmost match of `([-+])?(\d+)` in the token, as a step; `None` when the
/// token holds no match.
pub open spec fn parse_step(s: Seq<char>) -> Option<Step> {
    let p = match_start(s, 0);
    if p < s.len() {
        let signed = !is_ascii_digit(s[p]);
        let d = if signed {
            p + 1
        } else {
            p
        };
        let v = digits_value(s.subrange(d, digits_end(s, d)));
        Some(
            if !signed {
                Step::Absolute(v)
            } else if s[p] == '-' {
                Step::Backward(v)
            } else {
                Step::Forward(v)
            },
        )
    } else {
        None
    }
}

/// The absolute index a step leads to from `current`.
pub open spec fn step_target(step: Step, current: int) -> int {
    match step {
        Step::Absolute(v) => v as int,
        Step::Forward(v) => current + v,
        Step::Backward(v) => current - v,
    }
}

/// Where `token` leads for `group`: relative steps start from the group's current
/// index, or from 1 when none of its managed workspaces is visible. `None` when the
/// token holds no match, or its number or the result does not fit `i32`.
pub open spec fn target_index(ws: Seq<WorkspaceInfo>, group: Seq<char>, token: Seq<char>) -> Option<
    int,
> {
    match parse_step(token) {
        None => None,
        Some(step) => {
            let v = match step {
                Step::Absolute(v) => v,
                Step::Forward(v) => v,
                Step::Backward(v) => v,
            };
            let current = match current_index(ws, group) {
                Some(i) => i,
                None => 1,
            };
            let t = step_target(step, current);
            if v <= i32::MAX && i32::MIN <= t <= i32::MAX {
                Some(t)
            } else {
                None
            }
        },
    }
}

proof fn lemma_match_start(s: Seq<char>, i: int, j: int)
    requires
        0 <= i <= j <= s.len(),
        j < s.len() ==> match_at(s, j),
        forall|k: int| i <= k < j ==> !match_at(s, k),
    ensures
        match_start(s, i) == j,
    decreases j - i,
{
    if i < j {
        lemma_match_start(s, i + 1, j);
    }
}

proof fn lemma_digits_end(s: Seq<char>, i: int, j: int)
    requires
        0 <= i <= j <= s.len(),
        j < s.len() ==> !is_ascii_digit(s[j]),
        forall|k: int| i <= k < j ==> is_ascii_digit(s[k]),
    ensures
        digits_end(s, i) == j,
    decreases j - i,
{
    if i < j {
        lemma_digits_end(s, i + 1, j);
    }
}

fn is_digit_char(c: char) -> (r: bool)
    ensures
        r == is_ascii_digit(c),
{
    '0' <= c && c <= '9'
}

/// Position of the leftmost match of `([-+])?(\d+)` in `destination`, or its length.
fn find_match_start(destination: &str) -> (p: usize)
    ensures
        p as int == match_start(destination@, 0),
        p <= destination@.len(),
{
    let ghost s = destination@;
    let len = destination.unicode_len();
    let mut p: usize = 0;
    while p < len
        invariant
            len == s.len(),
            s == destination@,
            0 <= p <= len,
            forall|k: int| 0 <= k < p ==> !match_at(s, k),
        ensures
            0 <= p <= len,
            forall|k: int| 0 <= k < p ==> !match_at(s, k),
            p < len ==> match_at(s, p as int),
        decreases len - p,
    {
        let c = destination.get_char(p);
        if is_digit_char(c) {
            break;
        }
        if (c == '-' || c == '+') && p + 1 < len && is_digit_char(destination.get_char(p + 1)) {
            break;
        }
        assert(!match_at(s, p as int));
        p += 1;
    }
    proof {
        lemma_match_start(s, 0, p as int);
    }
    p
}

/// Whether `destination` is a relative step for `monitor_group` that starts from
/// the default index 1, because none of the group's managed workspaces is visible.
pub fn is_relative_from_default(workspaces: &Vec<WorkspaceInfo>, monitor_group: &str, destination: &str) -> (r: bool)
    ensures
        r == (match parse_step(destination@) {
            Some(Step::Absolute(_)) => false,
            Some(_) => true,
            None => false,
        } && current_index(workspaces@, monitor_group@) is None),
{
    let p = find_match_start(destination);
    if p == destination.unicode_len() {
        return false;
    }
    if is_digit_char(destination.get_char(p)) {
        return false;
    }
    find_current_index(workspaces, monitor_group).is_none()
}

/// Resolves `destination` to an absolute workspace group index for
/// `monitor_group`, given the workspaces of the compositor.
pub fn get_target_index(workspaces: &Vec<WorkspaceInfo>, monitor_group: &str, destination: &str) -> (r:
    Result<i32, EngineError>)
    ensures
        match target_index(workspaces@, monitor_group@, destination@) {
            Some(t) => r is Ok && r->Ok_0 as int == t,
            None => r == Err::<i32, EngineError>(EngineError::ParseError),
        },
{
    let ghost s = destination@;
    let len = destination.unicode_len();
    let p = find_match_start(destination);
    if p == len {
        return Err(EngineError::ParseError);
    }
    let c = destination.get_char(p);
    let signed = !is_digit_char(c);
    let d = if signed {
        p + 1
    } else {
        p
    };
    let mut e = d;
    while e < len
        invariant
            len == s.len(),
            s == destination@,
            d <= e <= len,
            forall|k: int| d <= k < e ==> is_ascii_digit(s[k]),
        ensures
            d <= e <= len,
            forall|k: int| d <= k < e ==> is_ascii_digit(s[k]),
            e < len ==> !is_ascii_digit(s[e as int]),
        decreases len - e,
    {
        if !is_digit_char(destination.get_char(e)) {
            break;
        }
        e += 1;
    }
    proof {
        lemma_digits_end(s, d as int, e as int);
    }
    let v = match parse_digits(destination, d, e) {
        None => {
            return Err(EngineError::ParseError);
        },
        Some(v) => v,
    };
    if v > 0x7fff_ffff {
        return Err(EngineError::ParseError);
    }
    let v = v as i64;
    if !signed {
        return Ok(v as i32);
    }
    let current: i64 = match find_current_index(workspaces, monitor_group) {
        Some(i) => i as i64,
        None => 1,
    };
    let t = if c == '-' {
        current - v
    } else {
        current + v
    };
    if t < i32::MIN as i64 || t > i32::MAX as i64 {
        return Err(EngineError::ParseError);
    }
    Ok(t as i32)
}

} // verus!
