//! The monitor group directory: ordered monitor groups, each an ordered list of
//! monitors whose positions are the slots.
use crate::error::EngineError;
use crate::text::{contains_str, str_eq, strings};
use vstd::prelude::*;

verus! {

/// Index of the first workspace group.
pub const FIRST_WORKSPACE_GROUP: i32 = 1;

/// Position of the first element of `s` at or after `i` that `active` contains,
/// or `s.len()` if there is none.
pub open spec fn first_in(s: Seq<Seq<char>>, active: Seq<Seq<char>>, i: int) -> int
    decreases s.len() - i,
{
    if i < 0 || i >= s.len() {
        s.len() as int
    } else if active.contains(s[i]) {
        i
    } else {
        first_in(s, active, i + 1)
    }
}

/// Position of the first occurrence of `x` in `s` at or after `i`, or `s.len()`.
pub open spec fn position_from(s: Seq<Seq<char>>, x: Seq<char>, i: int) -> int
    decreases s.len() - i,
{
    if i < 0 || i >= s.len() {
        s.len() as int
    } else if s[i] == x {
        i
    } else {
        position_from(s, x, i + 1)
    }
}

pub proof fn lemma_first_in(s: Seq<Seq<char>>, active: Seq<Seq<char>>, i: int, j: int)
    requires
        0 <= i <= j <= s.len(),
        j < s.len() ==> active.contains(s[j]),
        forall|k: int| i <= k < j ==> !active.contains(s[k]),
    ensures
        first_in(s, active, i) == j,
    decreases j - i,
{
    if i < j {
        lemma_first_in(s, active, i + 1, j);
    }
}

pub proof fn lemma_position_from(s: Seq<Seq<char>>, x: Seq<char>, i: int, j: int)
    requires
        0 <= i <= j <= s.len(),
        j < s.len() ==> s[j] == x,
        forall|k: int| i <= k < j ==> s[k] != x,
    ensures
        position_from(s, x, i) == j,
    decreases j - i,
{
    if i < j {
        lemma_position_from(s, x, i + 1, j);
    }
}

/// Group of monitors that share the same workspace groups.
#[derive(Debug, Clone)]
pub struct MonitorGroup {
    pub name: String,
    pub monitors: Vec<String>,
}

impl MonitorGroup {
    /// The monitors of the group, by slot.
    pub open spec fn slots(&self) -> Seq<Seq<char>> {
        strings(self.monitors@)
    }

    /// Slot of the main monitor, the first active monitor of the group, if any.
    pub open spec fn main_slot(&self, active: Seq<Seq<char>>) -> Option<nat> {
        let i = first_in(self.slots(), active, 0);
        if 0 <= i < self.slots().len() {
            Some(i as nat)
        } else {
            None
        }
    }

    /// Slot of the monitor named `m`, if the group holds it.
    pub open spec fn slot_of(&self, m: Seq<char>) -> Option<nat> {
        let i = position_from(self.slots(), m, 0);
        if 0 <= i < self.slots().len() {
            Some(i as nat)
        } else {
            None
        }
    }

    pub fn get_name(&self) -> (r: &str)
        ensures
            r@ == self.name@,
    {
        self.name.as_str()
    }

    /// The first active monitor of the group is its main monitor: returns its slot.
    pub fn get_main_monitor_index(&self, active_monitors: &Vec<String>) -> (r: Result<
        usize,
        EngineError,
    >)
        ensures
            match self.main_slot(strings(active_monitors@)) {
                Some(s) => r is Ok && r->Ok_0 as nat == s,
                None => r == Err::<usize, EngineError>(EngineError::NoActiveMonitor),
            },
    {
        let ghost act = strings(active_monitors@);
        let mut i: usize = 0;
        while i < self.monitors.len()
            invariant
                0 <= i <= self.monitors.len(),
                act == strings(active_monitors@),
                forall|k: int| 0 <= k < i ==> !act.contains(#[trigger] self.slots()[k]),
            decreases self.monitors.len() - i,
        {
            if contains_str(active_monitors, self.monitors[i].as_str()) {
                proof {
                    lemma_first_in(self.slots(), act, 0, i as int);
                }
                return Ok(i);
            }
            assert(self.slots()[i as int] == self.monitors@[i as int]@);
            i += 1;
        }
        proof {
            lemma_first_in(self.slots(), act, 0, i as int);
        }
        Err(EngineError::NoActiveMonitor)
    }

    /// Slot of the monitor named `monitor_name` in the group.
    pub fn get_monitor_index(&self, monitor_name: &str) -> (r: Option<usize>)
        ensures
            match self.slot_of(monitor_name@) {
                Some(s) => r is Some && r->0 as nat == s,
                None => r is None,
            },
    {
        let mut i: usize = 0;
        while i < self.monitors.len()
            invariant
                0 <= i <= self.monitors.len(),
                forall|k: int| 0 <= k < i ==> #[trigger] self.slots()[k] != monitor_name@,
            decreases self.monitors.len() - i,
        {
            if str_eq(self.monitors[i].as_str(), monitor_name) {
                proof {
                    lemma_position_from(self.slots(), monitor_name@, 0, i as int);
                }
                return Some(i);
            }
            assert(self.slots()[i as int] == self.monitors@[i as int]@);
            i += 1;
        }
        proof {
            lemma_position_from(self.slots(), monitor_name@, 0, i as int);
        }
        None
    }
}

/// Position of the first group named `name` at or after `i`, or `gs.len()`.
pub open spec fn group_position(gs: Seq<MonitorGroup>, name: Seq<char>, i: int) -> int
    decreases gs.len() - i,
{
    if i < 0 || i >= gs.len() {
        gs.len() as int
    } else if gs[i].name@ == name {
        i
    } else {
        group_position(gs, name, i + 1)
    }
}

proof fn lemma_group_position(gs: Seq<MonitorGroup>, name: Seq<char>, i: int, j: int)
    requires
        0 <= i <= j <= gs.len(),
        j < gs.len() ==> gs[j].name@ == name,
        forall|k: int| i <= k < j ==> gs[k].name@ != name,
    ensures
        group_position(gs, name, i) == j,
    decreases j - i,
{
    if i < j {
        lemma_group_position(gs, name, i + 1, j);
    }
}

/// The configured monitor groups, in order; the first is the primary group.
#[derive(Debug, Clone)]
pub struct Config {
    pub groups: Vec<MonitorGroup>,
}

impl Config {
    /// The group named `name`, if configured (the first such group).
    pub open spec fn group(&self, name: Seq<char>) -> Option<MonitorGroup> {
        let i = group_position(self.groups@, name, 0);
        if 0 <= i < self.groups@.len() {
            Some(self.groups@[i])
        } else {
            None
        }
    }

    /// The primary group: the first configured group.
    pub fn get_primary_group(&self) -> (r: Result<&MonitorGroup, EngineError>)
        ensures
            self.groups@.len() == 0 ==> r == Err::<&MonitorGroup, EngineError>(
                EngineError::ConfigError,
            ),
            self.groups@.len() > 0 ==> r is Ok && *r->Ok_0 == self.groups@[0],
    {
        if self.groups.len() == 0 {
            Err(EngineError::ConfigError)
        } else {
            Ok(&self.groups[0])
        }
    }

    /// The group named `name`.
    pub fn get_group(&self, name: &str) -> (r: Option<&MonitorGroup>)
        ensures
            match self.group(name@) {
                Some(g) => r is Some && *r->0 == g,
                None => r is None,
            },
    {
        let mut i: usize = 0;
        while i < self.groups.len()
            invariant
                0 <= i <= self.groups.len(),
                forall|k: int| 0 <= k < i ==> #[trigger] self.groups@[k].name@ != name@,
            decreases self.groups.len() - i,
        {
            if str_eq(self.groups[i].name.as_str(), name) {
                proof {
                    lemma_group_position(self.groups@, name@, 0, i as int);
                }
                return Some(&self.groups[i]);
            }
            i += 1;
        }
        proof {
            lemma_group_position(self.groups@, name@, 0, i as int);
        }
        None
    }
}

} // verus!
