use vstd::prelude::*;

use crate::text::{copy_opt_text, copy_texts, opt_text, same_opt_text, same_text, same_texts, texts};
use std::cmp::Ordering;

verus! {

/// A point in time in UTC: whole seconds since the Unix epoch and the
/// nanoseconds past that second (a leap second may carry more than 10^9).
#[derive(Debug, Clone, Copy, PartialEq, Eq, Structural, Hash)]
pub struct Timestamp {
    pub secs: i64,
    pub nanos: u32,
}

impl Timestamp {
    /// `self` lies strictly after `other`.
    pub open spec fn after(self, other: Timestamp) -> bool {
        self.secs > other.secs || (self.secs == other.secs && self.nanos > other.nanos)
    }

    /// The time as one number whose order is the order of time.
    pub open spec fn key(self) -> int {
        self.secs * 0x1_0000_0000 + self.nanos
    }

    pub fn is_after(&self, other: &Timestamp) -> (r: bool)
        ensures
            r == self.after(*other),
    {
        self.secs > other.secs || (self.secs == other.secs && self.nanos > other.nanos)
    }

    /// The time as one number whose order is the order of time.
    pub fn recency_key(&self) -> (r: i128)
        ensures
            r == self.key(),
    {
        (self.secs as i128) * 0x1_0000_0000i128 + (self.nanos as i128)
    }
}

/// Later times have larger keys.
pub proof fn lemma_key_order(a: Timestamp, b: Timestamp)
    ensures
        a.after(b) <==> a.key() > b.key(),
        a == b <==> a.key() == b.key(),
{
    let (x, y) = (a.secs as int, b.secs as int);
    let (p, q) = (a.nanos as int, b.nanos as int);
    assert(x > y ==> x * 0x1_0000_0000 + p > y * 0x1_0000_0000 + q) by (nonlinear_arith)
        requires
            0 <= p < 0x1_0000_0000,
            0 <= q < 0x1_0000_0000,
    ;
    assert(x < y ==> x * 0x1_0000_0000 + p < y * 0x1_0000_0000 + q) by (nonlinear_arith)
        requires
            0 <= p < 0x1_0000_0000,
            0 <= q < 0x1_0000_0000,
    ;
}

/// How the editor treats a development container.
#[derive(Debug, Default, Clone, Copy, PartialEq, Eq, Structural, Hash, PartialOrd, Ord)]
pub enum ContainerStrategy {
    /// Use a development container if one was detected.
    #[default]
    Detect,
    /// Open in a development container, even if no configuration was found.
    ForceContainer,
    /// Ignore development containers.
    ForceClassic,
}

pub const LAUNCH_DETECT: &'static str = "detect";

pub const LAUNCH_FORCE_CONTAINER: &'static str = "force-container";

pub const LAUNCH_FORCE_CLASSIC: &'static str = "force-classic";

/// The name under which a strategy is written and read.
pub open spec fn strategy_name(s: ContainerStrategy) -> Seq<char> {
    match s {
        ContainerStrategy::Detect => LAUNCH_DETECT@,
        ContainerStrategy::ForceContainer => LAUNCH_FORCE_CONTAINER@,
        ContainerStrategy::ForceClassic => LAUNCH_FORCE_CLASSIC@,
    }
}

/// `n` is the name of one of the strategies.
pub open spec fn known_strategy_name(n: Seq<char>) -> bool {
    n == LAUNCH_DETECT@ || n == LAUNCH_FORCE_CONTAINER@ || n == LAUNCH_FORCE_CLASSIC@
}

/// The text of the error for an unknown strategy name.
pub open spec fn invalid_strategy_message(s: Seq<char>) -> Seq<char> {
    "Invalid launch behavior: "@ + s
}

impl ContainerStrategy {
    /// The name of the strategy.
    pub fn as_str(&self) -> (r: &'static str)
        ensures
            r@ == strategy_name(*self),
    {
        match self {
            ContainerStrategy::Detect => LAUNCH_DETECT,
            ContainerStrategy::ForceContainer => LAUNCH_FORCE_CONTAINER,
            ContainerStrategy::ForceClassic => LAUNCH_FORCE_CLASSIC,
        }
    }

    /// Reads a strategy from its name; an unknown name gives the error message.
    pub fn from_str(s: &str) -> (r: Result<ContainerStrategy, String>)
        ensures
            r matches Ok(v) ==> strategy_name(v) == s@,
            r is Ok <==> known_strategy_name(s@),
            r matches Err(m) ==> m@ == invalid_strategy_message(s@),
    {
        if same_text(s, LAUNCH_DETECT) {
            Ok(ContainerStrategy::Detect)
        } else if same_text(s, LAUNCH_FORCE_CONTAINER) {
            Ok(ContainerStrategy::ForceContainer)
        } else if same_text(s, LAUNCH_FORCE_CLASSIC) {
            Ok(ContainerStrategy::ForceClassic)
        } else {
            let mut m = String::from_str("Invalid launch behavior: ");
            m.append(s);
            Err(m)
        }
    }
}

/// What a launch behavior holds, as values.
pub struct BehaviorView {
    pub strategy: ContainerStrategy,
    pub args: Seq<Seq<char>>,
    pub command: Seq<char>,
}

/// The launch behavior that starts the editor (kept in the history).
#[derive(Debug, Clone)]
pub struct Behavior {
    /// The strategy for development containers.
    pub strategy: ContainerStrategy,
    /// Additional arguments for the editor.
    pub args: Vec<String>,
    /// The editor command (e.g. "code", "code-insiders", "cursor").
    pub command: String,
}

impl View for Behavior {
    type V = BehaviorView;

    open spec fn view(&self) -> BehaviorView {
        BehaviorView { strategy: self.strategy, args: texts(self.args@), command: self.command@ }
    }
}

impl Behavior {
    /// A copy of the behavior.
    pub fn duplicate(&self) -> (r: Behavior)
        ensures
            r@ == self@,
    {
        let args = copy_texts(&self.args);
        assert(texts(args@) =~= texts(self.args@));
        Behavior { strategy: self.strategy, args, command: self.command.clone() }
    }

    /// The behavior with what the command line gives in place of the stored values:
    /// a given command, a given strategy, and the given arguments when there are any.
    pub fn overridden(self, command: Option<String>, strategy: Option<ContainerStrategy>, args: Vec<String>) -> (r: Behavior)
        ensures
            r.command@ == (match command {
                Some(c) => c@,
                None => self.command@,
            }),
            r.strategy == (match strategy {
                Some(s) => s,
                None => self.strategy,
            }),
            texts(r.args@) == if args@.len() > 0 {
                texts(args@)
            } else {
                texts(self.args@)
            },
    {
        let Behavior { strategy: old_strategy, args: old_args, command: old_command } = self;
        Behavior {
            strategy: match strategy {
                Some(s) => s,
                None => old_strategy,
            },
            args: if args.len() > 0 {
                args
            } else {
                old_args
            },
            command: match command {
                Some(c) => c,
                None => old_command,
            },
        }
    }

    /// Whether two behaviors hold the same values.
    pub fn same_as(&self, other: &Behavior) -> (r: bool)
        ensures
            r == (self@ == other@),
    {
        self.strategy == other.strategy && same_texts(&self.args, &other.args) && self.command
            == other.command
    }
}

/// What a history record holds, as values.
pub struct EntryView {
    pub workspace_name: Seq<char>,
    pub dev_container_name: Option<Seq<char>>,
    pub workspace_path: Seq<char>,
    pub config_path: Option<Seq<char>>,
    pub behavior: BehaviorView,
    pub last_opened: Timestamp,
}

/// Two records stand for the same launch: same workspace path, same container
/// configuration and same behavior. Names and the time of opening do not count.
pub open spec fn same_launch(a: EntryView, b: EntryView) -> bool {
    &&& a.workspace_path == b.workspace_path
    &&& a.config_path == b.config_path
    &&& a.behavior == b.behavior
}

/// One previously opened workspace.
#[derive(Debug, Clone)]
pub struct Entry {
    /// The name of the workspace.
    pub workspace_name: String,
    /// The name of the development container, if there is one.
    pub dev_container_name: Option<String>,
    /// The (canonical) path of the workspace.
    pub workspace_path: String,
    /// The path of the development container configuration, if there is one.
    pub config_path: Option<String>,
    /// The launch behavior.
    pub behavior: Behavior,
    /// When the workspace was last opened.
    pub last_opened: Timestamp,
}

impl View for Entry {
    type V = EntryView;

    open spec fn view(&self) -> EntryView {
        EntryView {
            workspace_name: self.workspace_name@,
            dev_container_name: opt_text(self.dev_container_name),
            workspace_path: self.workspace_path@,
            config_path: opt_text(self.config_path),
            behavior: self.behavior@,
            last_opened: self.last_opened,
        }
    }
}

/// The order of two records: equal when they stand for the same launch, else
/// the order of their times of opening (equal times give `Equal` as well).
pub open spec fn entry_order(a: EntryView, b: EntryView) -> Ordering {
    if same_launch(a, b) {
        Ordering::Equal
    } else if a.last_opened.after(b.last_opened) {
        Ordering::Greater
    } else if b.last_opened.after(a.last_opened) {
        Ordering::Less
    } else {
        Ordering::Equal
    }
}

impl Entry {
    /// A copy of the record.
    pub fn duplicate(&self) -> (r: Entry)
        ensures
            r@ == self@,
    {
        Entry {
            workspace_name: self.workspace_name.clone(),
            dev_container_name: copy_opt_text(&self.dev_container_name),
            workspace_path: self.workspace_path.clone(),
            config_path: copy_opt_text(&self.config_path),
            behavior: self.behavior.duplicate(),
            last_opened: self.last_opened,
        }
    }

    /// Whether both records stand for the same launch.
    pub fn same_launch_as(&self, other: &Entry) -> (r: bool)
        ensures
            r == same_launch(self@, other@),
    {
        self.workspace_path == other.workspace_path && same_opt_text(
            &self.config_path,
            &other.config_path,
        ) && self.behavior.same_as(&other.behavior)
    }

    /// Orders records: the same launch is equal, else the later one is greater.
    pub fn compare(&self, other: &Entry) -> (r: Ordering)
        ensures
            r == entry_order(self@, other@),
    {
        if self.same_launch_as(other) {
            Ordering::Equal
        } else if self.last_opened.is_after(&other.last_opened) {
            Ordering::Greater
        } else if other.last_opened.is_after(&self.last_opened) {
            Ordering::Less
        } else {
            Ordering::Equal
        }
    }
}

impl PartialEq for Entry {
    fn eq(&self, other: &Entry) -> (r: bool) {
        self.same_launch_as(other)
    }
}

impl vstd::std_specs::cmp::PartialEqSpecImpl for Entry {
    open spec fn obeys_eq_spec() -> bool {
        true
    }

    open spec fn eq_spec(&self, other: &Entry) -> bool {
        same_launch(self@, other@)
    }
}

impl Eq for Entry {

}

} // verus!
