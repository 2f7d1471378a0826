//! DBC database: the messages of a DBC file, with lookup by identifier.
use std::collections::HashMap;
use vstd::prelude::*;

use crate::dbc::message::{DbcMessage, MessageView};
use crate::dbc::signal::SignalView;

verus! {

broadcast use vstd::std_specs::hash::group_hash_axioms;

/// Database of CAN messages from a DBC file.
#[derive(Debug)]
pub struct DbcDatabase {
    /// For each identifier, the position of the last message with it.
    messages: HashMap<u32, usize>,
    /// All messages in file order.
    message_list: Vec<DbcMessage>,
    /// Source file path.
    pub file_path: Option<String>,
}

/// Position of the last message with identifier `id`.
pub open spec fn last_with_id(ms: Seq<MessageView>, id: u32) -> Option<int>
    decreases ms.len(),
{
    if ms.len() == 0 {
        None
    } else if ms.last().id == id {
        Some(ms.len() - 1)
    } else {
        last_with_id(ms.drop_last(), id)
    }
}

proof fn lemma_last_with_id_range(ms: Seq<MessageView>, id: u32)
    ensures
        last_with_id(ms, id) matches Some(i) ==> 0 <= i < ms.len() && ms[i].id == id,
    decreases ms.len(),
{
    if ms.len() > 0 && ms.last().id != id {
        lemma_last_with_id_range(ms.drop_last(), id);
    }
}

/// Every (message identifier, message name, signal name) triple, in file order.
pub open spec fn signal_names(ms: Seq<MessageView>) -> Seq<(u32, Seq<char>, Seq<char>)>
    decreases ms.len(),
{
    if ms.len() == 0 {
        seq![]
    } else {
        signal_names(ms.drop_last()) + ms.last().signals.map_values(
            |s: SignalView| (ms.last().id, ms.last().name, s.name),
        )
    }
}

impl View for DbcDatabase {
    type V = Seq<MessageView>;

    closed spec fn view(&self) -> Seq<MessageView> {
        self.message_list@.map_values(|m: DbcMessage| m@)
    }
}

impl DbcDatabase {
    /// The path of the file the database was read from.
    pub closed spec fn source_path(&self) -> Option<String> {
        self.file_path
    }

    /// The lookup table agrees with the message list.
    pub closed spec fn wf(&self) -> bool {
        &&& forall|id: u32| #[trigger]
            self.messages@.contains_key(id) <==> last_with_id(self@, id) is Some
        &&& forall|id: u32|
            self.messages@.contains_key(id) ==> last_with_id(self@, id) == Some(
                #[trigger] self.messages@[id] as int,
            )
    }

    /// A database of the given messages (in file order).
    pub fn from_messages(messages: Vec<DbcMessage>, file_path: Option<String>) -> (db: Self)
        ensures
            db.wf(),
            db@ == messages@.map_values(|m: DbcMessage| m@),
            db.source_path() == file_path,
    {
        let mut map: HashMap<u32, usize> = HashMap::new();
        let mut i: usize = 0;
        let ghost all = messages@.map_values(|m: DbcMessage| m@);
        while i < messages.len()
            invariant
                0 <= i <= messages@.len(),
                all == messages@.map_values(|m: DbcMessage| m@),
                forall|id: u32| #[trigger]
                    map@.contains_key(id) <==> last_with_id(all.take(i as int), id) is Some,
                forall|id: u32|
                    map@.contains_key(id) ==> last_with_id(all.take(i as int), id) == Some(
                        #[trigger] map@[id] as int,
                    ),
            decreases messages@.len() - i,
        {
            let id = messages[i].id;
            map.insert(id, i);
            assert(all.take(i + 1).drop_last() =~= all.take(i as int));
            assert(all.take(i + 1).last().id == id);
            i = i + 1;
        }
        assert(all.take(i as int) =~= all);
        DbcDatabase { messages: map, message_list: messages, file_path }
    }

    /// The message with identifier `id` (the last one, where several share it).
    pub fn get_message(&self, id: u32) -> (r: Option<&DbcMessage>)
        requires
            self.wf(),
        ensures
            match r {
                Some(m) => last_with_id(self@, id) matches Some(i) && m@ == self@[i],
                None => last_with_id(self@, id) is None,
            },
    {
        proof {
            lemma_last_with_id_range(self@, id);
        }
        match self.messages.get(&id) {
            Some(idx) => {
                let idx = *idx;
                Some(&self.message_list[idx])
            },
            None => None,
        }
    }

    /// All messages, in file order.
    pub fn messages(&self) -> (r: &[DbcMessage])
        ensures
            r@.map_values(|m: DbcMessage| m@) == self@,
    {
        self.message_list.as_slice()
    }

    /// Every (message identifier, message name, signal name) triple, in file order.
    pub fn all_signal_names(&self) -> (r: Vec<(u32, String, String)>)
        ensures
            r@.map_values(|t: (u32, String, String)| (t.0, t.1@, t.2@)) == signal_names(self@),
    {
        let mut result: Vec<(u32, String, String)> = Vec::new();
        let ghost ms = self@;
        let mut i: usize = 0;
        while i < self.message_list.len()
            invariant
                0 <= i <= self.message_list@.len(),
                ms == self@,
                ms == self.message_list@.map_values(|m: DbcMessage| m@),
                result@.map_values(|t: (u32, String, String)| (t.0, t.1@, t.2@)) == signal_names(
                    ms.take(i as int),
                ),
            decreases self.message_list@.len() - i,
        {
            let msg = &self.message_list[i];
            let ghost before = result@.map_values(|t: (u32, String, String)| (t.0, t.1@, t.2@));
            let ghost sv = msg@.signals;
            let mut k: usize = 0;
            while k < msg.signals.len()
                invariant
                    0 <= k <= msg.signals@.len(),
                    sv == msg@.signals,
                    result@.map_values(|t: (u32, String, String)| (t.0, t.1@, t.2@)) == before
                        + sv.take(k as int).map_values(|s: SignalView| (msg.id, msg.name@, s.name)),
                decreases msg.signals@.len() - k,
            {
                let ghost prev = result@;
                let n1 = msg.name.clone();
                let n2 = msg.signals[k].name.clone();
                assert(sv[k as int].name == msg.signals@[k as int].name@);
                result.push((msg.id, n1, n2));
                assert(result@.map_values(|t: (u32, String, String)| (t.0, t.1@, t.2@)) =~= prev.map_values(
                    |t: (u32, String, String)| (t.0, t.1@, t.2@),
                ).push((msg.id, msg.name@, sv[k as int].name)));
                assert(sv.take(k + 1) =~= sv.take(k as int).push(sv[k as int]));
                assert(result@.map_values(|t: (u32, String, String)| (t.0, t.1@, t.2@)) =~= before
                    + sv.take(k + 1).map_values(|s: SignalView| (msg.id, msg.name@, s.name)));
                k = k + 1;
            }
            assert(sv.take(k as int) =~= sv);
            assert(ms.take(i + 1).drop_last() =~= ms.take(i as int));
            assert(ms.take(i + 1).last() == msg@);
            i = i + 1;
        }
        assert(ms.take(i as int) =~= ms);
        result
    }
}

} // verus!
