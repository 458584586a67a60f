//! The append-only event log. Systems append structured events; the
//! front end renders them as text.

use vstd::prelude::*;

verus! {

/// One reported event.
pub enum LogEvent {
    /// A named entity died.
    Death { name: String },
    /// A melee attack that dealt no damage.
    MeleeMiss { attacker: String, target: String },
    /// A melee attack that dealt damage.
    MeleeHit { attacker: String, target: String, amount: i32 },
    /// The player picked an item up.
    PickedUp { name: String },
    /// The player dropped an item.
    Dropped { name: String },
    /// The player drank or applied a healing item.
    Healed { item: String, amount: i32 },
    /// The player's item dealt damage to a target.
    ItemDamage { item: String, target: String, amount: i32 },
    /// The player's item confused a target.
    Confused { item: String, target: String },
    /// An item left an equipment slot of the player.
    Unequipped { name: String },
    /// An item was equipped by the player.
    EquippedItem { name: String },
    /// Free-form text, for the front end's own announcements.
    Note { text: String },
}

/// The mathematical value of one reported event.
pub enum LogEventV {
    Death { name: Seq<char> },
    MeleeMiss { attacker: Seq<char>, target: Seq<char> },
    MeleeHit { attacker: Seq<char>, target: Seq<char>, amount: int },
    PickedUp { name: Seq<char> },
    Dropped { name: Seq<char> },
    Healed { item: Seq<char>, amount: int },
    ItemDamage { item: Seq<char>, target: Seq<char>, amount: int },
    Confused { item: Seq<char>, target: Seq<char> },
    Unequipped { name: Seq<char> },
    EquippedItem { name: Seq<char> },
    Note { text: Seq<char> },
}

impl View for LogEvent {
    type V = LogEventV;

    open spec fn view(&self) -> LogEventV {
        match self {
            LogEvent::Death { name } => LogEventV::Death { name: name@ },
            LogEvent::MeleeMiss { attacker, target } => LogEventV::MeleeMiss {
                attacker: attacker@,
                target: target@,
            },
            LogEvent::MeleeHit { attacker, target, amount } => LogEventV::MeleeHit {
                attacker: attacker@,
                target: target@,
                amount: *amount as int,
            },
            LogEvent::PickedUp { name } => LogEventV::PickedUp { name: name@ },
            LogEvent::Dropped { name } => LogEventV::Dropped { name: name@ },
            LogEvent::Healed { item, amount } => LogEventV::Healed {
                item: item@,
                amount: *amount as int,
            },
            LogEvent::ItemDamage { item, target, amount } => LogEventV::ItemDamage {
                item: item@,
                target: target@,
                amount: *amount as int,
            },
            LogEvent::Confused { item, target } => LogEventV::Confused {
                item: item@,
                target: target@,
            },
            LogEvent::Unequipped { name } => LogEventV::Unequipped { name: name@ },
            LogEvent::EquippedItem { name } => LogEventV::EquippedItem { name: name@ },
            LogEvent::Note { text } => LogEventV::Note { text: text@ },
        }
    }
}

/// The values of a sequence of log entries.
pub open spec fn log_view(s: Seq<LogEvent>) -> Seq<LogEventV> {
    s.map_values(|x: LogEvent| x@)
}

/// Appending an entry appends its value.
pub proof fn lemma_log_view_push(s: Seq<LogEvent>, e: LogEvent)
    ensures
        log_view(s.push(e)) == log_view(s).push(e@),
{
    assert(log_view(s.push(e)) =~= log_view(s).push(e@));
}

/// The textual event log: append-only, never failing.
pub struct GameLog {
    pub entries: Vec<LogEvent>,
}

impl View for GameLog {
    type V = Seq<LogEventV>;

    open spec fn view(&self) -> Seq<LogEventV> {
        log_view(self.entries@)
    }
}

impl GameLog {
    pub fn new() -> (log: GameLog)
        ensures
            log@ == Seq::<LogEventV>::empty(),
    {
        let log = GameLog { entries: Vec::new() };
        proof {
            assert(log@ =~= Seq::<LogEventV>::empty());
        }
        log
    }

    /// Appends one event.
    pub fn push(&mut self, e: LogEvent)
        ensures
            final(self)@ == old(self)@.push(e@),
            final(self).entries@ == old(self).entries@.push(e),
    {
        proof {
            lemma_log_view_push(self.entries@, e);
        }
        self.entries.push(e);
    }
}

} // verus!
