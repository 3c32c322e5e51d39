//! The command history: an ordered mapping from [`CommandId`] to
//! [`WeaverCommand`], kept as a vector of pairs sorted by strictly
//! increasing id.
//!
//! The daemon's copy is authoritative and also carries `next_index`, the
//! source of fresh command ids; each client holds a replica that it mutates
//! only by applying received notices.  The meaning of applying a notice is
//! given once, at the spec level, by [`apply_notice`]; both sides' updates
//! are proved against it, which is what makes the replicas converge.

use vstd::prelude::*;

use crate::messages::CommandId;
use crate::messages::ServerMessage;
use crate::messages::ServerMessageV;
use crate::messages::ServerNotice;
use crate::messages::ServerNoticeV;
use crate::messages::WeaverCommand;
use crate::messages::WeaverCommandV;
use crate::messages::clone_command_pairs;
use crate::messages::pairs_view;
use vstd::string::StringExecFns;

verus! {

/// Spec-level mirror of [`CommandHistory`].
#[verifier::ext_equal]
pub ghost struct CommandHistoryV {
    pub commands: Seq<(CommandId, WeaverCommandV)>,
    pub next_index: CommandId,
}

/// The keys of `s` are strictly increasing (so in particular pairwise
/// distinct, and iteration in vector order is ascending-id order).
pub open spec fn sorted_pairs(s: Seq<(CommandId, WeaverCommandV)>) -> bool {
    forall|i: int, j: int| 0 <= i < j < s.len() ==> (#[trigger] s[i]).0 < (#[trigger] s[j]).0
}

/// Does some pair of `s` carry the id `id`?
pub open spec fn seq_has_id(s: Seq<(CommandId, WeaverCommandV)>, id: CommandId) -> bool {
    exists|k: int| 0 <= k < s.len() && (#[trigger] s[k]).0 == id
}

/// The mapping that a pair list denotes; on a duplicated key the later
/// entry wins, as when the pairs are inserted in order.
pub open spec fn map_of_pairs(s: Seq<(CommandId, WeaverCommandV)>) -> Map<CommandId, WeaverCommandV>
    decreases s.len(),
{
    if s.len() == 0 {
        Map::empty()
    } else {
        map_of_pairs(s.drop_last()).insert(s.last().0, s.last().1)
    }
}

impl CommandHistoryV {
    /// Well-formed: the pair vector is sorted by strictly increasing id.
    pub open spec fn wf(self) -> bool {
        sorted_pairs(self.commands)
    }

    /// The history as a mathematical map.
    pub open spec fn as_map(self) -> Map<CommandId, WeaverCommandV> {
        map_of_pairs(self.commands)
    }

    /// Is there a record for `id`?
    pub open spec fn contains_id(self, id: CommandId) -> bool {
        self.as_map().dom().contains(id)
    }
}

impl WeaverCommandV {
    /// The record after a `CommandOutput` notice: the chunk is appended to
    /// the stdout buffer.
    pub open spec fn with_stdout(self, t: Seq<char>) -> WeaverCommandV {
        WeaverCommandV { stdout: self.stdout + t, ..self }
    }

    /// The record after a `CommandErr` notice: the chunk is appended to the
    /// stderr buffer.
    pub open spec fn with_stderr(self, t: Seq<char>) -> WeaverCommandV {
        WeaverCommandV { stderr: self.stderr + t, ..self }
    }

    /// The record after a `CommandCompleted` notice.
    pub open spec fn with_status(self, code: i32) -> WeaverCommandV {
        WeaverCommandV { status: Some(code), ..self }
    }
}

/// What one notice does to a history, as a map transformer.  A chunk or
/// completion for an id with no record leaves the map unchanged (the
/// executable update requires the record to exist, mirroring that such a
/// notice is a broker fault; the spec stays total so that whole streams can
/// be folded).
pub open spec fn apply_notice(
    m: Map<CommandId, WeaverCommandV>,
    msg: ServerMessageV,
) -> Map<CommandId, WeaverCommandV> {
    match msg.notice {
        ServerNoticeV::CommandsBulk(l) => m.union_prefer_right(map_of_pairs(l)),
        ServerNoticeV::CommandStarted(i, cmd) => m.insert(i, WeaverCommandV::started(cmd)),
        ServerNoticeV::CommandOutput(i, t) => if m.dom().contains(i) {
            m.insert(i, m[i].with_stdout(t))
        } else {
            m
        },
        ServerNoticeV::CommandErr(i, t) => if m.dom().contains(i) {
            m.insert(i, m[i].with_stderr(t))
        } else {
            m
        },
        ServerNoticeV::CommandCompleted(i, code) => if m.dom().contains(i) {
            m.insert(i, m[i].with_status(code))
        } else {
            m
        },
    }
}

/// A whole notice stream folded over a starting history, oldest first.
pub open spec fn apply_notices(
    m: Map<CommandId, WeaverCommandV>,
    msgs: Seq<ServerMessageV>,
) -> Map<CommandId, WeaverCommandV>
    decreases msgs.len(),
{
    if msgs.len() == 0 {
        m
    } else {
        apply_notice(apply_notices(m, msgs.drop_last()), msgs.last())
    }
}

/// Folding single-record inserts of `l` into `m`, oldest first.
pub open spec fn insert_all(
    m: Map<CommandId, WeaverCommandV>,
    l: Seq<(CommandId, WeaverCommandV)>,
) -> Map<CommandId, WeaverCommandV>
    decreases l.len(),
{
    if l.len() == 0 {
        m
    } else {
        insert_all(m, l.drop_last()).insert(l.last().0, l.last().1)
    }
}

/// An id is in the denoted map exactly when some pair carries it.
pub proof fn lemma_map_of_pairs_dom(s: Seq<(CommandId, WeaverCommandV)>)
    ensures
        forall|id: CommandId| #[trigger] map_of_pairs(s).dom().contains(id) <==> seq_has_id(s, id),
    decreases s.len(),
{
    if s.len() > 0 {
        lemma_map_of_pairs_dom(s.drop_last());
        assert forall|id: CommandId|
            #[trigger] map_of_pairs(s).dom().contains(id) <==> seq_has_id(s, id) by {
            if map_of_pairs(s).dom().contains(id) {
                if id == s.last().0 {
                    assert(s[s.len() - 1].0 == id);
                } else {
                    assert(map_of_pairs(s.drop_last()).dom().contains(id));
                    assert(seq_has_id(s.drop_last(), id));
                    let k = choose|k: int| 0 <= k < s.drop_last().len() && (#[trigger] s.drop_last()[k]).0 == id;
                    assert(s[k] == s.drop_last()[k]);
                    assert(s[k].0 == id);
                }
            }
            if seq_has_id(s, id) {
                let k = choose|k: int| 0 <= k < s.len() && (#[trigger] s[k]).0 == id;
                if k < s.len() - 1 {
                    assert(s.drop_last()[k].0 == id);
                    assert(seq_has_id(s.drop_last(), id));
                    assert(map_of_pairs(s.drop_last()).dom().contains(id));
                }
            }
        }
    }
}

/// With pairwise distinct keys, the map sends each listed id to its record.
pub proof fn lemma_map_of_pairs_get(s: Seq<(CommandId, WeaverCommandV)>, k: int)
    requires
        sorted_pairs(s),
        0 <= k < s.len(),
    ensures
        map_of_pairs(s).dom().contains(s[k].0),
        map_of_pairs(s)[s[k].0] == s[k].1,
    decreases s.len(),
{
    if k < s.len() - 1 {
        assert(sorted_pairs(s.drop_last())) by {
            assert forall|i: int, j: int| 0 <= i < j < s.drop_last().len()
                implies (#[trigger] s.drop_last()[i]).0 < (#[trigger] s.drop_last()[j]).0 by {
                assert(s[i].0 < s[j].0);
            }
        }
        lemma_map_of_pairs_get(s.drop_last(), k);
        assert(s.drop_last()[k] == s[k]);
        assert(s[k].0 != s.last().0);
    }
}

/// Replacing the record at one position, keeping its key, denotes a map
/// insert at that key.
pub proof fn lemma_map_of_pairs_update(s: Seq<(CommandId, WeaverCommandV)>, k: int, v: WeaverCommandV)
    requires
        sorted_pairs(s),
        0 <= k < s.len(),
    ensures
        map_of_pairs(s.update(k, (s[k].0, v))) =~= map_of_pairs(s).insert(s[k].0, v),
    decreases s.len(),
{
    let t = s.update(k, (s[k].0, v));
    if k == s.len() - 1 {
        assert(t.drop_last() =~= s.drop_last());
        assert(t.last() == (s[k].0, v));
    } else {
        assert(sorted_pairs(s.drop_last())) by {
            assert forall|i: int, j: int| 0 <= i < j < s.drop_last().len()
                implies (#[trigger] s.drop_last()[i]).0 < (#[trigger] s.drop_last()[j]).0 by {
                assert(s[i].0 < s[j].0);
            }
        }
        lemma_map_of_pairs_update(s.drop_last(), k, v);
        assert(t.drop_last() =~= s.drop_last().update(k, (s[k].0, v)));
        assert(t.last() == s.last());
        assert(s[k].0 != s.last().0);
    }
}

/// Inserting a pair whose key appears nowhere in `s` denotes a map insert,
/// wherever in the vector it lands.
pub proof fn lemma_map_of_pairs_insert(
    s: Seq<(CommandId, WeaverCommandV)>,
    p: int,
    id: CommandId,
    v: WeaverCommandV,
)
    requires
        0 <= p <= s.len(),
        !seq_has_id(s, id),
    ensures
        map_of_pairs(s.insert(p, (id, v))) =~= map_of_pairs(s).insert(id, v),
    decreases s.len(),
{
    let t = s.insert(p, (id, v));
    if p == s.len() {
        assert(t.drop_last() =~= s);
        assert(t.last() == (id, v));
    } else {
        assert(!seq_has_id(s.drop_last(), id)) by {
            if seq_has_id(s.drop_last(), id) {
                let k = choose|k: int| 0 <= k < s.drop_last().len() && (#[trigger] s.drop_last()[k]).0 == id;
                assert(s[k].0 == id);
            }
        }
        lemma_map_of_pairs_insert(s.drop_last(), p, id, v);
        assert(t.drop_last() =~= s.drop_last().insert(p, (id, v)));
        assert(t.last() == s.last());
        assert(s.last().0 != id) by {
            assert(s[s.len() - 1].0 == s.last().0);
        }
    }
}

/// Inserting the pairs of `l` one by one is a right-preferring union.
pub proof fn lemma_insert_all_union(
    m: Map<CommandId, WeaverCommandV>,
    l: Seq<(CommandId, WeaverCommandV)>,
)
    ensures
        insert_all(m, l) =~= m.union_prefer_right(map_of_pairs(l)),
    decreases l.len(),
{
    if l.len() > 0 {
        lemma_insert_all_union(m, l.drop_last());
    }
}

/// Applying the same notice twice leaves the same history as applying it
/// once, for every notice other than the append-by-design output chunks.
pub proof fn lemma_apply_notice_idempotent(m: Map<CommandId, WeaverCommandV>, msg: ServerMessageV)
    requires
        !(msg.notice is CommandOutput),
        !(msg.notice is CommandErr),
    ensures
        apply_notice(apply_notice(m, msg), msg) == apply_notice(m, msg),
{
    let m1 = apply_notice(m, msg);
    match msg.notice {
        ServerNoticeV::CommandsBulk(l) => {
            assert(apply_notice(m1, msg) =~= m1);
        },
        ServerNoticeV::CommandStarted(i, cmd) => {
            assert(apply_notice(m1, msg) =~= m1);
        },
        ServerNoticeV::CommandCompleted(i, code) => {
            if m.dom().contains(i) {
                assert(m1[i] == m[i].with_status(code));
                assert(m1[i].with_status(code) == m1[i]);
                assert(apply_notice(m1, msg) =~= m1);
            }
        },
        _ => {},
    }
}

/// The ordered command history.  `commands` is sorted by strictly
/// increasing [`CommandId`]; `next_index` is the daemon's source of fresh
/// ids (a client's replica carries it along but never reads it).
#[derive(Debug, PartialEq)]
pub struct CommandHistory {
    pub commands: Vec<(CommandId, WeaverCommand)>,
    pub next_index: CommandId,
}

impl View for CommandHistory {
    type V = CommandHistoryV;

    open spec fn view(&self) -> CommandHistoryV {
        CommandHistoryV { commands: pairs_view(self.commands@), next_index: self.next_index }
    }
}

impl Clone for CommandHistory {
    fn clone(&self) -> (res: Self)
        ensures
            res@ == self@,
    {
        let res = CommandHistory { commands: clone_command_pairs(&self.commands), next_index: self.next_index };
        proof {
            assert(res@.commands =~= self@.commands);
        }
        res
    }
}

impl CommandHistory {
    /// An empty history; ids will be assigned from 1 up.
    pub fn new() -> (res: Self)
        ensures
            res@.commands =~= Seq::<(CommandId, WeaverCommandV)>::empty(),
            res@.next_index == 1,
            res@.wf(),
    {
        let res = CommandHistory { commands: Vec::new(), next_index: 1 };
        proof {
            assert(res@.commands =~= Seq::<(CommandId, WeaverCommandV)>::empty());
        }
        res
    }

    /// Hands out the next fresh command id and advances the counter.
    pub fn next_index(&mut self) -> (rv: CommandId)
        requires
            old(self)@.next_index < CommandId::MAX,
        ensures
            rv == old(self)@.next_index,
            final(self)@.next_index == old(self)@.next_index + 1,
            final(self)@.commands == old(self)@.commands,
    {
        let rv = self.next_index;
        self.next_index = self.next_index + 1;
        rv
    }

    /// The position of the record for `id`, if there is one.
    fn find_index(&self, id: CommandId) -> (r: Option<usize>)
        ensures
            match r {
                Some(k) => k < self@.commands.len() && self@.commands[k as int].0 == id,
                None => !seq_has_id(self@.commands, id),
            },
    {
        let mut i: usize = 0;
        while i < self.commands.len()
            invariant
                i <= self.commands@.len(),
                forall|k: int| 0 <= k < i ==> (#[trigger] self@.commands[k]).0 != id,
            decreases self.commands@.len() - i,
        {
            if self.commands[i].0 == id {
                return Some(i);
            }
            i = i + 1;
        }
        None
    }

    /// The exit status of the record for `id`: `None` when there is no
    /// such record, `Some(None)` while it runs, `Some(Some(code))` once it
    /// completed.
    pub fn get_status(&self, id: CommandId) -> (r: Option<Option<i32>>)
        requires
            self@.wf(),
        ensures
            match r {
                Some(st) => self@.contains_id(id) && st == self@.as_map()[id].status,
                None => !self@.contains_id(id),
            },
    {
        proof {
            lemma_map_of_pairs_dom(self@.commands);
        }
        match self.find_index(id) {
            None => None,
            Some(k) => {
                proof {
                    lemma_map_of_pairs_get(self@.commands, k as int);
                }
                Some(self.commands[k].1.status)
            },
        }
    }

    /// Is there a record for `id`?
    pub fn contains(&self, id: CommandId) -> (r: bool)
        ensures
            r == self@.contains_id(id),
    {
        proof {
            lemma_map_of_pairs_dom(self@.commands);
        }
        match self.find_index(id) {
            Some(_) => true,
            None => false,
        }
    }

    /// Puts `rec` under `id`, replacing any record already there; keeps the
    /// vector sorted.
    fn insert_record(&mut self, id: CommandId, rec: WeaverCommand)
        requires
            old(self)@.wf(),
        ensures
            final(self)@.wf(),
            final(self)@.as_map() =~= old(self)@.as_map().insert(id, rec@),
            final(self)@.next_index == old(self)@.next_index,
    {
        let ghost s0 = self@.commands;
        let mut p: usize = 0;
        while p < self.commands.len() && self.commands[p].0 < id
            invariant
                p <= self.commands@.len(),
                self@.commands == s0,
                forall|k: int| 0 <= k < p ==> (#[trigger] self@.commands[k]).0 < id,
            decreases self.commands@.len() - p,
        {
            p = p + 1;
        }
        if p < self.commands.len() && self.commands[p].0 == id {
            let _old = self.commands.remove(p);
            self.commands.insert(p, (id, rec));
            proof {
                assert(self@.commands =~= s0.update(p as int, (id, rec@)));
                lemma_map_of_pairs_update(s0, p as int, rec@);
            }
        } else {
            proof {
                assert(!seq_has_id(s0, id)) by {
                    if seq_has_id(s0, id) {
                        let k = choose|k: int| 0 <= k < s0.len() && (#[trigger] s0[k]).0 == id;
                        assert(p <= k);
                        assert(s0[p as int].0 <= s0[k].0);
                    }
                }
            }
            self.commands.insert(p, (id, rec));
            proof {
                assert(self@.commands =~= s0.insert(p as int, (id, rec@)));
                lemma_map_of_pairs_insert(s0, p as int, id, rec@);
            }
        }
    }

    /// Applies one received notice to the history, exactly as
    /// [`apply_notice`] describes.  Chunk and completion notices demand an
    /// existing record: the daemon only produces them for started commands,
    /// and a client that receives one without its `CommandStarted` is seeing
    /// a broken stream and must not apply it.
    pub fn do_update(&mut self, msg: ServerMessage)
        requires
            old(self)@.wf(),
            msg@.notice matches ServerNoticeV::CommandOutput(i, _) ==> old(self)@.contains_id(i),
            msg@.notice matches ServerNoticeV::CommandErr(i, _) ==> old(self)@.contains_id(i),
            msg@.notice matches ServerNoticeV::CommandCompleted(i, _) ==> old(self)@.contains_id(i),
        ensures
            final(self)@.wf(),
            final(self)@.as_map() =~= apply_notice(old(self)@.as_map(), msg@),
            final(self)@.next_index == old(self)@.next_index,
    {
        let ghost m0 = self@.as_map();
        match msg.notice {
            ServerNotice::CommandStarted(i, cmd) => {
                self.insert_record(i, WeaverCommand::new(cmd));
            },
            ServerNotice::CommandOutput(i, text) => {
                proof {
                    lemma_map_of_pairs_dom(self@.commands);
                }
                let k = self.find_index(i).unwrap();
                proof {
                    lemma_map_of_pairs_get(self@.commands, k as int);
                }
                let (id, mut rec) = self.commands.remove(k);
                let ghost s0 = self@.commands;
                rec.stdout.append(text.as_str());
                self.commands.insert(k, (id, rec));
                proof {
                    assert(self@.commands =~= old(self)@.commands.update(k as int, (i, m0[i].with_stdout(text@))));
                    lemma_map_of_pairs_update(old(self)@.commands, k as int, m0[i].with_stdout(text@));
                }
            },
            ServerNotice::CommandErr(i, text) => {
                proof {
                    lemma_map_of_pairs_dom(self@.commands);
                }
                let k = self.find_index(i).unwrap();
                proof {
                    lemma_map_of_pairs_get(self@.commands, k as int);
                }
                let (id, mut rec) = self.commands.remove(k);
                rec.stderr.append(text.as_str());
                self.commands.insert(k, (id, rec));
                proof {
                    assert(self@.commands =~= old(self)@.commands.update(k as int, (i, m0[i].with_stderr(text@))));
                    lemma_map_of_pairs_update(old(self)@.commands, k as int, m0[i].with_stderr(text@));
                }
            },
            ServerNotice::CommandCompleted(i, code) => {
                proof {
                    lemma_map_of_pairs_dom(self@.commands);
                }
                let k = self.find_index(i).unwrap();
                proof {
                    lemma_map_of_pairs_get(self@.commands, k as int);
                }
                let (id, mut rec) = self.commands.remove(k);
                rec.status = Some(code);
                self.commands.insert(k, (id, rec));
                proof {
                    assert(self@.commands =~= old(self)@.commands.update(k as int, (i, m0[i].with_status(code))));
                    lemma_map_of_pairs_update(old(self)@.commands, k as int, m0[i].with_status(code));
                }
            },
            ServerNotice::CommandsBulk(l) => {
                let ghost lv = pairs_view(l@);
                let mut j: usize = 0;
                while j < l.len()
                    invariant
                        j <= l@.len(),
                        lv == pairs_view(l@),
                        self@.wf(),
                        self@.as_map() =~= insert_all(m0, lv.take(j as int)),
                        self@.next_index == old(self)@.next_index,
                    decreases l@.len() - j,
                {
                    let (id, rec) = (l[j].0, l[j].1.clone());
                    let ghost before = self@.as_map();
                    self.insert_record(id, rec);
                    proof {
                        assert(lv.take(j as int + 1).drop_last() =~= lv.take(j as int));
                        assert(lv.take(j as int + 1).last() == (id, rec@));
                        assert(self@.as_map() =~= insert_all(m0, lv.take(j as int + 1)));
                    }
                    j = j + 1;
                }
                proof {
                    assert(lv.take(lv.len() as int) =~= lv);
                    lemma_insert_all_union(m0, lv);
                }
            },
        }
    }

    /// The records in ascending-id order, borrowed.
    pub fn iter(&self) -> (r: &Vec<(CommandId, WeaverCommand)>)
        ensures
            pairs_view(r@) == self@.commands,
    {
        &self.commands
    }

    /// The records in ascending-id order, owned.
    pub fn into_iter(self) -> (r: Vec<(CommandId, WeaverCommand)>)
        ensures
            pairs_view(r@) == self@.commands,
    {
        self.commands
    }

    /// The command line of the `i`-th record counting back from the newest,
    /// as the client's history browser walks it.
    pub fn find_cmd_by_index(&self, i: usize) -> (r: Option<String>)
        ensures
            match r {
                Some(s) => i < self@.commands.len()
                    && s@ == self@.commands[self@.commands.len() - 1 - i].1.cmd,
                None => i >= self@.commands.len(),
            },
    {
        if i < self.commands.len() {
            let k = self.commands.len() - 1 - i;
            Some(self.commands[k].1.cmd.clone())
        } else {
            None
        }
    }
}

} // verus!
