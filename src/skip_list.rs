//! An append-only log of (offset, command) entries with a skip-list index.
//!
//! Entries live in an arena and refer to one another by position: entry `i`
//! holds one forward link for each level it reaches, and the link at level `l`
//! names the next entry that reaches level `l`. The first entry always reaches
//! every level, so it serves as the head of each level's chain.

use vstd::prelude::*;

use crate::level::choose_level;

verus! {

/// One log entry with its forward links, one per level that it reaches.
pub struct Node {
    pub next: Vec<Option<usize>>,
    pub offset: u64,
    pub command: String,
}

impl Node {
    /// An entry holding `offset` and `command`, with the given forward links.
    pub fn new(links: Vec<Option<usize>>, offset: u64, command: String) -> (r: Node)
        ensures
            r.next@ == links@,
            r.offset == offset,
            r.command@ == command@,
    {
        Node { next: links, offset, command }
    }
}

/// Offsets strictly increase along the log.
pub open spec fn offsets_increasing(s: Seq<(u64, Seq<char>)>) -> bool {
    forall|i: int, j: int| 0 <= i < j < s.len() ==> s[i].0 < s[j].0
}

/// The command stored under `offset` in `s`: that of the last entry with this
/// offset, or none if no entry has it.
pub open spec fn command_at(s: Seq<(u64, Seq<char>)>, offset: u64) -> Option<Seq<char>>
    decreases s.len(),
{
    if s.len() == 0 {
        None
    } else if s.last().0 == offset {
        Some(s.last().1)
    } else {
        command_at(s.drop_last(), offset)
    }
}

/// In a log with increasing offsets, the offset of each entry finds that
/// entry's command.
pub proof fn lemma_command_at_entry(s: Seq<(u64, Seq<char>)>, i: int)
    requires
        offsets_increasing(s),
        0 <= i < s.len(),
    ensures
        command_at(s, s[i].0) == Some(s[i].1),
    decreases s.len(),
{
    if i < s.len() - 1 {
        assert(s[i].0 < s.last().0);
        lemma_command_at_entry(s.drop_last(), i);
    }
}

/// An offset that no entry holds finds nothing, in particular in an empty log.
pub proof fn lemma_command_at_absent(s: Seq<(u64, Seq<char>)>, offset: u64)
    requires
        forall|i: int| 0 <= i < s.len() ==> s[i].0 != offset,
    ensures
        command_at(s, offset) is None,
    decreases s.len(),
{
    if s.len() > 0 {
        lemma_command_at_absent(s.drop_last(), offset);
    }
}

/// Number of forward links of each entry.
spec fn heights(nodes: Seq<Node>) -> Seq<nat> {
    nodes.map_values(|n: Node| n.next@.len())
}

/// `link`, held by entry `i` at level `l`, names the next entry after `i`
/// that reaches level `l`, or is absent when there is none.
spec fn link_ok(hs: Seq<nat>, i: int, l: int, link: Option<usize>) -> bool {
    match link {
        Some(j) => {
            &&& i < j < hs.len()
            &&& l < hs[j as int]
            &&& forall|k: int| i < k < j ==> hs[k] <= l
        },
        None => forall|k: int| i < k < hs.len() ==> hs[k] <= l,
    }
}

/// `link` names the last entry that reaches level `l`, or is absent when none does.
spec fn tail_ok(hs: Seq<nat>, l: int, link: Option<usize>) -> bool {
    match link {
        Some(t) => {
            &&& t < hs.len()
            &&& l < hs[t as int]
            &&& forall|k: int| t < k < hs.len() ==> hs[k] <= l
        },
        None => forall|k: int| 0 <= k < hs.len() ==> hs[k] <= l,
    }
}

/// An append-only log whose entries are found by offset through a skip list.
pub struct TransactionLog {
    nodes: Vec<Node>,
    head: Option<usize>,
    tails: Vec<Option<usize>>,
    max_level: usize,
    length: u64,
}

impl View for TransactionLog {
    type V = Seq<(u64, Seq<char>)>;

    /// The (offset, command) entries in the order in which they were appended.
    closed spec fn view(&self) -> Seq<(u64, Seq<char>)> {
        self.nodes@.map_values(|n: Node| (n.offset, n.command@))
    }
}

impl TransactionLog {
    /// The highest index level, fixed at construction.
    pub closed spec fn top_level(&self) -> nat {
        self.max_level as nat
    }

    /// The highest level that each entry reaches, in order of appending.
    pub closed spec fn levels(&self) -> Seq<nat> {
        self.nodes@.map_values(|n: Node| (n.next@.len() - 1) as nat)
    }

    /// The arena, the head, the per-level tails and the counter agree, and
    /// every forward link names the next entry on its level.
    pub closed spec fn wf(&self) -> bool {
        let hs = heights(self.nodes@);
        &&& self.length == self.nodes.len()
        &&& self.tails.len() == self.max_level + 1
        &&& self.head == (if self.nodes.len() == 0 {
            None::<usize>
        } else {
            Some(0usize)
        })
        &&& self.nodes.len() > 0 ==> hs[0] == self.max_level + 1
        &&& forall|i: int| 0 <= i < hs.len() ==> 1 <= #[trigger] hs[i] <= self.max_level + 1
        &&& offsets_increasing(self@)
        &&& forall|i: int, l: int|
            0 <= i < hs.len() && 0 <= l < hs[i] ==> link_ok(
                hs,
                i,
                l,
                #[trigger] self.nodes@[i].next@[l],
            )
        &&& forall|l: int| 0 <= l <= self.max_level ==> tail_ok(hs, l, #[trigger] self.tails@[l])
    }

    /// An empty log whose index has levels `0..=max_level`.
    pub fn new_empty(max_level: usize) -> (r: TransactionLog)
        requires
            max_level < usize::MAX,
        ensures
            r.wf(),
            r@ == Seq::<(u64, Seq<char>)>::empty(),
            r.levels() == Seq::<nat>::empty(),
            r.top_level() == max_level,
    {
        let mut tails: Vec<Option<usize>> = Vec::new();
        while tails.len() <= max_level
            invariant
                tails.len() <= max_level + 1,
                forall|l: int| 0 <= l < tails.len() ==> tails@[l] is None,
            decreases max_level + 1 - tails.len(),
        {
            tails.push(None);
        }
        let r = TransactionLog { nodes: Vec::new(), head: None, tails, max_level, length: 0 };
        assert(r@ =~= Seq::<(u64, Seq<char>)>::empty());
        assert(r.levels() =~= Seq::<nat>::empty());
        r
    }

    /// Appends `(offset, command)`. The new entry reaches level `drawn`, except
    /// the first entry of the log, which reaches every level.
    pub fn append_with_level(&mut self, offset: u64, command: String, drawn: usize)
        requires
            old(self).wf(),
            drawn <= old(self).top_level(),
            old(self)@.len() < u64::MAX,
            old(self)@.len() > 0 ==> old(self)@.last().0 < offset,
        ensures
            final(self).wf(),
            final(self)@ == old(self)@.push((offset, command@)),
            final(self).levels() == old(self).levels().push(
                if old(self)@.len() == 0 {
                    old(self).top_level()
                } else {
                    drawn as nat
                },
            ),
            final(self).top_level() == old(self).top_level(),
    {
        let ghost old_view = self@;
        let ghost old_levels = self.levels();
        let ghost ohs = heights(self.nodes@);
        let n = self.nodes.len();
        let level = if self.head.is_none() {
            self.max_level
        } else {
            drawn
        };
        let mut links: Vec<Option<usize>> = Vec::new();
        while links.len() <= level
            invariant
                level < usize::MAX,
                links.len() <= level + 1,
                forall|l: int| 0 <= l < links.len() ==> links@[l] is None,
            decreases level + 1 - links.len(),
        {
            links.push(None);
        }
        self.nodes.push(Node::new(links, offset, command));
        let ghost hs = heights(self.nodes@);
        let ghost old_tails = self.tails@;
        assert(hs =~= ohs.push((level + 1) as nat));
        assert(self@ =~= old_view.push((offset, command@)));
        assert(self.levels() =~= old_levels.push(level as nat));
        let mut i: usize = 0;
        while i <= level
            invariant
                n == ohs.len(),
                n < u64::MAX,
                self.nodes.len() == n + 1,
                self.length == n,
                self.head == (if n == 0 {
                    None::<usize>
                } else {
                    Some(0usize)
                }),
                level <= self.max_level,
                self.max_level < usize::MAX,
                hs == ohs.push((level + 1) as nat),
                heights(self.nodes@) == hs,
                self@ == old_view.push((offset, command@)),
                self.levels() == old_levels.push(level as nat),
                self.tails.len() == self.max_level + 1,
                old_tails.len() == self.max_level + 1,
                i <= level + 1,
                n > 0 ==> ohs[0] == self.max_level + 1,
                forall|l: int| 0 <= l <= self.max_level ==> tail_ok(ohs, l, #[trigger] old_tails[l]),
                forall|l: int| i <= l <= self.max_level ==> #[trigger] self.tails@[l] == old_tails[l],
                forall|l: int| 0 <= l < i ==> tail_ok(hs, l, #[trigger] self.tails@[l]),
                forall|l: int| i <= l <= level ==> #[trigger] self.nodes@[n as int].next@[l] is None,
                forall|k: int, l: int|
                    0 <= k < n && i <= l < ohs[k] ==> link_ok(
                        ohs,
                        k,
                        l,
                        #[trigger] self.nodes@[k].next@[l],
                    ),
                forall|k: int, l: int|
                    0 <= k <= n && 0 <= l < i && l < hs[k] ==> link_ok(
                        hs,
                        k,
                        l,
                        #[trigger] self.nodes@[k].next@[l],
                    ),
            decreases level + 1 - i,
        {
            if let Some(t) = self.tails[i] {
                assert(tail_ok(ohs, i as int, old_tails[i as int]));
                assert(t < n);
                assert(hs[t as int] == self.nodes@[t as int].next@.len());
                self.nodes[t].next[i] = Some(n);
            } else {
                assert(tail_ok(ohs, i as int, old_tails[i as int]));
            }
            self.tails[i] = Some(n);
            i = i + 1;
        }
        if n == 0 {
            self.head = Some(0);
        }
        self.length = self.length + 1;
    }

    /// Appends `(offset, command)`. The first entry reaches every level; each
    /// later one reaches a level drawn by fair coin flips.
    pub fn append(&mut self, offset: u64, command: String)
        requires
            old(self).wf(),
            old(self)@.len() < u64::MAX,
            old(self)@.len() > 0 ==> old(self)@.last().0 < offset,
        ensures
            final(self).wf(),
            final(self)@ == old(self)@.push((offset, command@)),
            final(self).top_level() == old(self).top_level(),
            final(self).levels().drop_last() == old(self).levels(),
            final(self).levels().last() <= old(self).top_level(),
            old(self)@.len() == 0 ==> final(self).levels().last() == old(self).top_level(),
    {
        let drawn = if self.head.is_none() {
            self.max_level
        } else {
            choose_level(self.max_level)
        };
        self.append_with_level(offset, command, drawn);
        assert(self.levels().drop_last() =~= old(self).levels());
    }

    /// The command stored under `offset`, if an entry has that offset. The
    /// search starts at the highest level linked from the head and descends,
    /// moving forward on each level while the next offset is at most `offset`.
    pub fn find(&self, offset: u64) -> (r: Option<String>)
        requires
            self.wf(),
        ensures
            match r {
                Some(c) => command_at(self@, offset) == Some(c@),
                None => command_at(self@, offset) is None,
            },
    {
        let ghost hs = heights(self.nodes@);
        let ghost s = self@;
        assert(hs.len() == self.nodes.len());
        let head = match self.head {
            Some(h) => h,
            None => {
                return None;
            },
        };
        let mut top: usize = self.max_level;
        while top > 0 && self.nodes[head].next[top].is_none()
            invariant
                self.wf(),
                head == 0,
                self.nodes.len() > 0,
                hs == heights(self.nodes@),
                top <= self.max_level,
                hs[0] == self.max_level + 1,
                self.nodes@[0].next@.len() == hs[0],
                top < self.max_level ==> self.nodes@[0].next@[top + 1] is None,
            decreases top,
        {
            top = top - 1;
        }
        assert(forall|k: int| 0 < k < hs.len() ==> hs[k] <= top + 1) by {
            if top < self.max_level {
                assert(link_ok(hs, 0, top + 1, self.nodes@[0].next@[top + 1]));
            }
        }
        let mut cur: usize = head;
        let mut remaining: usize = top + 1;
        while remaining > 0
            invariant
                self.wf(),
                hs == heights(self.nodes@),
                s == self@,
                cur < self.nodes.len(),
                remaining <= top + 1,
                top <= self.max_level,
                remaining <= hs[cur as int],
                cur == 0 || self.nodes@[cur as int].offset <= offset,
                remaining <= top ==> self.nodes@[cur as int].offset != offset,
                forall|k: int| cur < k < hs.len() && hs[k] > remaining ==> self.nodes@[k].offset > offset,
            decreases remaining,
        {
            let level = remaining - 1;
            loop
                invariant
                    self.wf(),
                    hs == heights(self.nodes@),
                    cur < self.nodes.len(),
                    level < hs[cur as int],
                    cur == 0 || self.nodes@[cur as int].offset <= offset,
                    forall|k: int| cur < k < hs.len() && hs[k] > level + 1 ==> self.nodes@[k].offset > offset,
                ensures
                    cur < self.nodes.len(),
                    level < hs[cur as int],
                    cur == 0 || self.nodes@[cur as int].offset <= offset,
                    forall|k: int| cur < k < hs.len() && hs[k] > level ==> self.nodes@[k].offset > offset,
                decreases self.nodes.len() - cur,
            {
                assert(hs[cur as int] == self.nodes@[cur as int].next@.len());
                assert(link_ok(hs, cur as int, level as int, self.nodes@[cur as int].next@[level as int]));
                match self.nodes[cur].next[level] {
                    Some(j) => {
                        if self.nodes[j].offset <= offset {
                            cur = j;
                        } else {
                            assert forall|k: int|
                                cur < k < hs.len() && hs[k] > level implies self.nodes@[k].offset
                                > offset by {
                                if k > j {
                                    assert(self@[j as int].0 < self@[k].0);
                                }
                            }
                            break;
                        }
                    },
                    None => {
                        break;
                    },
                }
            }
            if self.nodes[cur].offset == offset {
                proof {
                    lemma_command_at_entry(s, cur as int);
                }
                return Some(self.nodes[cur].command.clone());
            }
            remaining = level;
        }
        proof {
            assert forall|k: int| 0 <= k < s.len() implies s[k].0 != offset by {
                assert(s[k].0 == self.nodes@[k].offset);
                assert(s[cur as int].0 == self.nodes@[cur as int].offset);
                assert(hs[k] >= 1);
                if k < cur {
                    assert(s[k].0 < s[cur as int].0);
                }
            }
            lemma_command_at_absent(s, offset);
        }
        None
    }

    /// Every appended entry is found by its own offset: after any sequence of
    /// appends, the command that `find` owes for `self@[i].0` is `self@[i].1`.
    pub proof fn lemma_finds_every_entry(&self, i: int)
        requires
            self.wf(),
            0 <= i < self@.len(),
        ensures
            command_at(self@, self@[i].0) == Some(self@[i].1),
    {
        lemma_command_at_entry(self@, i);
    }

    /// The first entry reaches every level `0..=top_level()`, and no entry
    /// reaches beyond it.
    pub proof fn lemma_head_reaches_every_level(&self)
        requires
            self.wf(),
        ensures
            self.levels().len() == self@.len(),
            self@.len() > 0 ==> self.levels()[0] == self.top_level(),
            forall|i: int| 0 <= i < self.levels().len() ==> #[trigger] self.levels()[i] <= self.top_level(),
    {
        let hs = heights(self.nodes@);
        assert forall|i: int| 0 <= i < self.levels().len() implies #[trigger] self.levels()[i]
            <= self.top_level() by {
            assert(hs[i] == self.nodes@[i].next@.len());
        }
        if self@.len() > 0 {
            assert(hs[0] == self.nodes@[0].next@.len());
        }
    }

    /// Number of entries appended so far.
    pub fn length(&self) -> (r: u64)
        requires
            self.wf(),
        ensures
            r == self@.len(),
    {
        self.length
    }
}

} // verus!
