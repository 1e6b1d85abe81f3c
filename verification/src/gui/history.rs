//! The history of recent actions: the last actions of the synchronizer,
//! newest first, for a menu to show.
use std::collections::VecDeque;
use vstd::prelude::*;
use vstd::string::*;
use crate::text::{append_decimal, decimal};

verus! {

/// The greatest number of entries that the history keeps.
pub const MAX_HISTORY_ENTRIES: usize = 50;

/// The kind of an action.
#[derive(Debug, Clone, Copy, PartialEq, Eq, Structural)]
pub enum ActionType {
    Sync,
    Upload,
    Download,
    Create,
    Delete,
    Conflict,
    Error,
}

/// The symbol that stands for a kind of action.
pub open spec fn emoji_spec(action_type: ActionType) -> Seq<char> {
    match action_type {
        ActionType::Sync => "🔄"@,
        ActionType::Upload => "📤"@,
        ActionType::Download => "📥"@,
        ActionType::Create => "✨"@,
        ActionType::Delete => "🗑️"@,
        ActionType::Conflict => "⚠️"@,
        ActionType::Error => "❌"@,
    }
}

impl ActionType {
    /// The symbol that stands for this kind of action.
    pub fn emoji(&self) -> (symbol: &'static str)
        ensures
            symbol@ == emoji_spec(*self),
    {
        match self {
            ActionType::Sync => "🔄",
            ActionType::Upload => "📤",
            ActionType::Download => "📥",
            ActionType::Create => "✨",
            ActionType::Delete => "🗑️",
            ActionType::Conflict => "⚠️",
            ActionType::Error => "❌",
        }
    }
}

/// One entry of the history: what happened, and when, in seconds since the
/// epoch.
#[derive(Debug)]
pub struct ActionEntry {
    pub timestamp: u64,
    pub action_type: ActionType,
    pub description: String,
}

/// How long ago `elapsed` seconds are, in words: `ahora` within the first
/// minute, then whole minutes, then whole hours.
pub open spec fn elapsed_label(elapsed: nat) -> Seq<char> {
    if elapsed < 60 {
        "ahora"@
    } else if elapsed < 3600 {
        decimal(elapsed / 60) + "m"@
    } else {
        decimal(elapsed / 3600) + "h"@
    }
}

/// The seconds from `then` to `now`, or 0 where `now` is the earlier.
pub open spec fn elapsed_between(then: u64, now: u64) -> nat {
    if now >= then {
        (now - then) as nat
    } else {
        0
    }
}

impl ActionEntry {
    /// An entry for what happened at `now`.
    pub fn new(action_type: ActionType, description: String, now: u64) -> (entry: Self)
        ensures
            entry.timestamp == now,
            entry.action_type == action_type,
            entry.description == description,
    {
        ActionEntry { timestamp: now, action_type, description }
    }

    /// The line that a menu shows for this entry at time `now`.
    pub open spec fn menu_line(&self, now: u64) -> Seq<char> {
        emoji_spec(self.action_type) + " "@ + self.description@ + " ("@ + elapsed_label(
            elapsed_between(self.timestamp, now),
        ) + ")"@
    }

    /// The line that a menu shows for this entry at time `now`: the symbol of
    /// the action, the description and, in brackets, how long ago it was.
    pub fn format_for_menu(&self, now: u64) -> (line: String)
        ensures
            line@ == self.menu_line(now),
    {
        let elapsed: u64 = if now >= self.timestamp {
            now - self.timestamp
        } else {
            0
        };
        let mut line = String::from_str(self.action_type.emoji());
        line.append(" ");
        line.append(self.description.as_str());
        line.append(" (");
        if elapsed < 60 {
            line.append("ahora");
        } else if elapsed < 3600 {
            append_decimal(&mut line, elapsed / 60);
            line.append("m");
        } else {
            append_decimal(&mut line, elapsed / 3600);
            line.append("h");
        }
        line.append(")");
        assert(line@ =~= self.menu_line(now));
        line
    }

    /// A copy of this entry.
    pub fn duplicate(&self) -> (copy: Self)
        ensures
            copy == *self,
    {
        ActionEntry {
            timestamp: self.timestamp,
            action_type: self.action_type,
            description: self.description.clone(),
        }
    }
}

/// The history: at most `MAX_HISTORY_ENTRIES` entries, newest first.
pub struct ActionHistory {
    entries: VecDeque<ActionEntry>,
}

impl View for ActionHistory {
    type V = Seq<ActionEntry>;

    /// The entries, newest first.
    closed spec fn view(&self) -> Seq<ActionEntry> {
        self.entries@
    }
}

/// The history after a new entry: the entry in front, and the oldest one
/// dropped where the history was full.
pub open spec fn pushed(history: Seq<ActionEntry>, entry: ActionEntry) -> Seq<ActionEntry> {
    if history.len() >= MAX_HISTORY_ENTRIES {
        seq![entry] + history.drop_last()
    } else {
        seq![entry] + history
    }
}

impl ActionHistory {
    /// The history holds no more entries than it may.
    pub open spec fn wf(&self) -> bool {
        self@.len() <= MAX_HISTORY_ENTRIES
    }

    /// An empty history.
    pub fn new() -> (history: Self)
        ensures
            history.wf(),
            history@.len() == 0,
    {
        ActionHistory { entries: VecDeque::new() }
    }

    /// Puts `entry` in front; the oldest entry goes where the history is full.
    pub fn push(&mut self, entry: ActionEntry)
        requires
            old(self).wf(),
        ensures
            final(self).wf(),
            final(self)@ == pushed(old(self)@, entry),
    {
        if self.entries.len() >= MAX_HISTORY_ENTRIES {
            self.entries.pop_back();
        }
        self.entries.push_front(entry);
        assert(self@ =~= pushed(old(self)@, entry));
    }

    /// Records what happened at `now`.
    pub fn log(&mut self, action_type: ActionType, description: String, now: u64)
        requires
            old(self).wf(),
        ensures
            final(self).wf(),
            final(self)@ == pushed(
                old(self)@,
                ActionEntry { timestamp: now, action_type, description },
            ),
    {
        self.push(ActionEntry::new(action_type, description, now));
    }

    /// The `count` newest entries, newest first; all of them where there are
    /// fewer.
    pub fn recent(&self, count: usize) -> (list: Vec<ActionEntry>)
        ensures
            list@ == self@.subrange(
                0,
                if count <= self@.len() {
                    count as int
                } else {
                    self@.len() as int
                },
            ),
    {
        let n = if count <= self.entries.len() {
            count
        } else {
            self.entries.len()
        };
        let mut list: Vec<ActionEntry> = Vec::new();
        let mut i: usize = 0;
        while i < n
            invariant
                i <= n <= self.entries.len(),
                list@ == self@.subrange(0, i as int),
            decreases n - i,
        {
            list.push(self.entries[i].duplicate());
            assert(list@ =~= self@.subrange(0, i + 1));
            i += 1;
        }
        list
    }

    /// All the entries, newest first.
    pub fn all(&self) -> (list: Vec<ActionEntry>)
        ensures
            list@ == self@,
    {
        let list = self.recent(self.entries.len());
        assert(list@ =~= self@);
        list
    }
}

} // verus!
