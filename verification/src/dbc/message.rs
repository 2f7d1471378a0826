//! DBC message definitions.
use vstd::prelude::*;

use crate::dbc::signal::{DbcSignal, SignalView};
use crate::text::str_eq;

verus! {

/// A message of a DBC database.
#[derive(Debug)]
pub struct DbcMessage {
    /// Message identifier (11-bit or 29-bit).
    pub id: u32,
    /// Message name.
    pub name: String,
    /// Data length in bytes.
    pub dlc: u8,
    /// Transmitting node.
    pub transmitter: String,
    /// Signals of the message.
    pub signals: Vec<DbcSignal>,
}

/// The mathematical value of a message.
pub struct MessageView {
    pub id: u32,
    pub name: Seq<char>,
    pub dlc: u8,
    pub transmitter: Seq<char>,
    pub signals: Seq<SignalView>,
}

impl View for DbcMessage {
    type V = MessageView;

    open spec fn view(&self) -> MessageView {
        MessageView {
            id: self.id,
            name: self.name@,
            dlc: self.dlc,
            transmitter: self.transmitter@,
            signals: self.signals@.map_values(|s: DbcSignal| s@),
        }
    }
}

/// Index of the first signal called `name`, if any.
pub open spec fn first_signal_named(signals: Seq<DbcSignal>, name: Seq<char>) -> Option<int> {
    if exists|i: int| 0 <= i < signals.len() && #[trigger] signals[i].name@ == name {
        Some(
            choose|i: int|
                0 <= i < signals.len() && signals[i].name@ == name && forall|k: int|
                    0 <= k < i ==> #[trigger] signals[k].name@ != name,
        )
    } else {
        None
    }
}

proof fn lemma_first_signal_named(signals: Seq<DbcSignal>, name: Seq<char>, i: int)
    requires
        0 <= i < signals.len(),
        signals[i].name@ == name,
        forall|k: int| 0 <= k < i ==> #[trigger] signals[k].name@ != name,
    ensures
        first_signal_named(signals, name) == Some(i),
{
    let j = choose|j: int|
        0 <= j < signals.len() && signals[j].name@ == name && forall|k: int|
            0 <= k < j ==> #[trigger] signals[k].name@ != name;
    assert(0 <= j < signals.len() && signals[j].name@ == name && forall|k: int|
        0 <= k < j ==> #[trigger] signals[k].name@ != name);
    if j < i {
        assert(signals[j].name@ != name);
    } else if j > i {
        assert(signals[i].name@ != name);
    }
}

impl DbcMessage {
    /// Position of the first signal called `name`.
    pub fn signal_index(&self, name: &str) -> (r: Option<usize>)
        ensures
            match r {
                Some(i) => i < self.signals@.len() && first_signal_named(self.signals@, name@) == Some(
                    i as int,
                ),
                None => first_signal_named(self.signals@, name@) is None,
            },
    {
        let mut i: usize = 0;
        while i < self.signals.len()
            invariant
                0 <= i <= self.signals@.len(),
                forall|k: int| 0 <= k < i ==> #[trigger] self.signals@[k].name@ != name@,
            decreases self.signals@.len() - i,
        {
            if str_eq(self.signals[i].name.as_str(), name) {
                proof {
                    lemma_first_signal_named(self.signals@, name@, i as int);
                }
                return Some(i);
            }
            i = i + 1;
        }
        None
    }

    /// The first signal called `name`.
    pub fn get_signal(&self, name: &str) -> (r: Option<&DbcSignal>)
        ensures
            r == match first_signal_named(self.signals@, name@) {
                Some(i) => Some(&self.signals@[i]),
                None => None,
            },
    {
        match self.signal_index(name) {
            Some(i) => Some(&self.signals[i]),
            None => None,
        }
    }

    /// The first signal called `name`, to be changed in place.
    pub fn get_signal_mut(&mut self, name: &str) -> (r: Option<&mut DbcSignal>)
        ensures
            match first_signal_named(old(self).signals@, name@) {
                Some(i) => r is Some && *r->0 == old(self).signals@[i] && final(self).signals@
                    == old(self).signals@.update(i, *final(r->0)) && final(self).id == old(self).id
                    && final(self).name == old(self).name && final(self).dlc == old(self).dlc
                    && final(self).transmitter == old(self).transmitter,
                None => r is None && *final(self) == *old(self),
            },
    {
        match self.signal_index(name) {
            Some(i) => Some(&mut self.signals[i]),
            None => None,
        }
    }
}

} // verus!
