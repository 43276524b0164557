//! Follows the Bitcoin chain: which blocks are to be downloaded next, and in which order they are
//! analyzed.

use vstd::multiset::Multiset;
use vstd::prelude::*;
use vstd::seq_lib::{to_multiset_build, to_multiset_contains, to_multiset_insert, to_multiset_len};

use crate::block::Block;

verus! {

/// How far the chain was followed.
#[derive(Debug, Clone, Copy, PartialEq, Eq)]
pub struct BlockListener {
    /// The first block that is analyzed.
    pub start_block_height: u64,
    /// The tip of the chain, as far as it is known.
    pub current_height: u64,
    /// The block that was analyzed last, if one was.
    pub analyzed_height: Option<u64>,
    /// Whether it was said that there is nothing left to do, and nothing was done since.
    pub fully_synced_logged: bool,
}

/// What is to be done next.
#[derive(Debug, Clone, Copy, PartialEq, Eq)]
pub enum ListenerStep {
    /// Download and analyze the blocks from the one height to the other.
    Download(u64, u64),
    /// Wait, then ask for the height of the tip.
    Poll,
}

/// What a poll brought.
#[derive(Debug, Clone, Copy, PartialEq, Eq)]
pub enum PollOutcome {
    /// There are new blocks, up to this height.
    NewTip(u64),
    /// There is nothing left to do, for the first time since something was done.
    FullySynced,
    /// There is still nothing to do.
    StillSynced,
}

impl BlockListener {
    /// The height of the next block to analyze.
    pub open spec fn next_height(self) -> int {
        match self.analyzed_height {
            Some(height) => height + 1,
            None => self.start_block_height as int,
        }
    }

    /// Whether the blocks that were analyzed lie between the start and the tip.
    pub open spec fn wf(self) -> bool {
        self.analyzed_height matches Some(height) ==> self.start_block_height <= height
            <= self.current_height
    }

    /// Begins at `start_block_height`, with the tip at `current_height`.
    pub fn new(start_block_height: u64, current_height: u64) -> (listener: BlockListener)
        ensures
            listener.wf(),
            listener.start_block_height == start_block_height,
            listener.current_height == current_height,
            listener.analyzed_height is None,
            !listener.fully_synced_logged,
    {
        BlockListener {
            start_block_height,
            current_height,
            analyzed_height: None,
            fully_synced_logged: false,
        }
    }

    /// What is to be done next: the blocks up to the tip that were not analyzed are downloaded; if
    /// there are none, the tip is polled.
    pub open spec fn step(self) -> ListenerStep {
        if self.next_height() <= self.current_height {
            ListenerStep::Download(self.next_height() as u64, self.current_height)
        } else {
            ListenerStep::Poll
        }
    }

    /// Decides what is to be done next.
    pub fn next_step(&self) -> (step: ListenerStep)
        requires
            self.wf(),
        ensures
            step == self.step(),
    {
        match self.analyzed_height {
            Some(height) => if height < self.current_height {
                ListenerStep::Download(height + 1, self.current_height)
            } else {
                ListenerStep::Poll
            },
            None => if self.start_block_height <= self.current_height {
                ListenerStep::Download(self.start_block_height, self.current_height)
            } else {
                ListenerStep::Poll
            },
        }
    }

    /// The state once the next block was analyzed.
    pub open spec fn advanced(self) -> BlockListener {
        BlockListener {
            analyzed_height: Some(self.next_height() as u64),
            fully_synced_logged: false,
            ..self
        }
    }

    /// Takes note that the next block, the one at `height`, was analyzed.
    pub fn analyzed(&mut self, height: u64)
        requires
            old(self).wf(),
            old(self).next_height() == height,
            height <= old(self).current_height,
        ensures
            final(self).wf(),
            *final(self) == old(self).advanced(),
    {
        self.analyzed_height = Some(height);
        self.fully_synced_logged = false;
    }

    /// The state once the tip turned out to be at `new_height`.
    pub open spec fn polled(self, new_height: u64) -> BlockListener {
        if new_height > self.current_height {
            BlockListener { current_height: new_height, fully_synced_logged: false, ..self }
        } else {
            BlockListener { fully_synced_logged: true, ..self }
        }
    }

    /// Takes note that the tip is at `new_height`. A tip that is not above the known one is not
    /// followed.
    pub fn poll(&mut self, new_height: u64) -> (poll: PollOutcome)
        requires
            old(self).wf(),
        ensures
            final(self).wf(),
            *final(self) == old(self).polled(new_height),
            poll == if new_height > old(self).current_height {
                PollOutcome::NewTip(new_height)
            } else if !old(self).fully_synced_logged {
                PollOutcome::FullySynced
            } else {
                PollOutcome::StillSynced
            },
    {
        if new_height > self.current_height {
            self.current_height = new_height;
            self.fully_synced_logged = false;
            PollOutcome::NewTip(new_height)
        } else if !self.fully_synced_logged {
            self.fully_synced_logged = true;
            PollOutcome::FullySynced
        } else {
            PollOutcome::StillSynced
        }
    }
}

/// Something that happens while the chain is followed.
pub enum ListenerEvent {
    /// The next block is analyzed, if there is one.
    Analyze,
    /// The tip turns out to be at this height.
    Poll(u64),
}

/// The state after `events`.
pub open spec fn followed(listener: BlockListener, events: Seq<ListenerEvent>) -> BlockListener
    decreases events.len(),
{
    if events.len() == 0 {
        listener
    } else {
        let before = followed(listener, events.drop_last());
        match events.last() {
            ListenerEvent::Analyze => if before.step() is Download {
                before.advanced()
            } else {
                before
            },
            ListenerEvent::Poll(height) => before.polled(height),
        }
    }
}

/// The heights of the blocks that are analyzed during `events`, in this order.
pub open spec fn analyzed_during(listener: BlockListener, events: Seq<ListenerEvent>) -> Seq<u64>
    decreases events.len(),
{
    if events.len() == 0 {
        Seq::empty()
    } else {
        let before = followed(listener, events.drop_last());
        let heights = analyzed_during(listener, events.drop_last());
        match (events.last(), before.step()) {
            (ListenerEvent::Analyze, ListenerStep::Download(from, to)) => heights.push(from),
            _ => heights,
        }
    }
}

/// Whatever happens, the blocks are analyzed one after the other from the start on, none is left
/// out and none comes twice; and when there is nothing left to download, all of them up to the tip
/// were analyzed.
pub proof fn law_every_block_once(start: u64, tip: u64, events: Seq<ListenerEvent>)
    ensures
        ({
            let begun = BlockListener {
                start_block_height: start,
                current_height: tip,
                analyzed_height: None,
                fully_synced_logged: false,
            };
            let now = followed(begun, events);
            let heights = analyzed_during(begun, events);
            &&& now.wf()
            &&& heights == Seq::new((now.next_height() - start) as nat, |i: int| (start + i) as u64)
            &&& start <= now.next_height()
            &&& now.step() is Poll ==> heights.len() == if now.current_height >= start {
                now.current_height - start + 1
            } else {
                0
            }
        }),
    decreases events.len(),
{
    let begun = BlockListener {
        start_block_height: start,
        current_height: tip,
        analyzed_height: None,
        fully_synced_logged: false,
    };
    let now = followed(begun, events);
    let heights = analyzed_during(begun, events);
    if events.len() > 0 {
        law_every_block_once(start, tip, events.drop_last());
        assert(now.start_block_height == start) by {
            lemma_start_kept(begun, events);
        }
        lemma_start_kept(begun, events.drop_last());
    }
    assert(heights =~= Seq::new((now.next_height() - start) as nat, |i: int| (start + i) as u64));
}

/// Following the chain does not change where it began.
proof fn lemma_start_kept(listener: BlockListener, events: Seq<ListenerEvent>)
    ensures
        followed(listener, events).start_block_height == listener.start_block_height,
    decreases events.len(),
{
    if events.len() > 0 {
        lemma_start_kept(listener, events.drop_last());
    }
}

/// Whether the blocks come in the order of their heights.
pub open spec fn in_order(blocks: Seq<(u64, Block)>) -> bool {
    forall|i: int, j: int|
        0 <= i < j < blocks.len() ==> (#[trigger] blocks[i]).0 <= (#[trigger] blocks[j]).0
}

/// Puts the blocks, which come in the order that their downloads ended in, in the order of their
/// heights.
pub fn sort_by_height(blocks_with_heights: Vec<(u64, Block)>) -> (sorted: Vec<(u64, Block)>)
    ensures
        in_order(sorted@),
        sorted@.to_multiset() == blocks_with_heights@.to_multiset(),
{
    let mut rest = blocks_with_heights;
    let mut sorted: Vec<(u64, Block)> = Vec::new();
    let ghost all = rest@.to_multiset();
    assert(rest@.to_multiset().add(sorted@.to_multiset()) =~= all) by {
        to_multiset_len(sorted@);
        assert(sorted@.to_multiset() =~= Multiset::empty());
    }
    while rest.len() > 0
        invariant
            in_order(sorted@),
            rest@.to_multiset().add(sorted@.to_multiset()) == all,
        decreases rest@.len(),
    {
        let ghost longer = rest@;
        let ghost before = sorted@;
        if let Some(pair) = rest.pop() {
            let mut at: usize = 0;
            while at < sorted.len() && sorted[at].0 < pair.0
                invariant
                    at <= sorted@.len(),
                    forall|i: int| 0 <= i < at ==> (#[trigger] sorted@[i]).0 < pair.0,
                decreases sorted@.len() - at,
            {
                at = at + 1;
            }
            sorted.insert(at, pair);
            proof {
                assert(longer =~= rest@.push(pair));
                to_multiset_build(rest@, pair);
                to_multiset_insert(before, at as int, pair);
                assert(rest@.to_multiset().add(sorted@.to_multiset()) =~= all);
                assert forall|i: int, j: int| 0 <= i < j < sorted@.len() implies (
                #[trigger] sorted@[i]).0 <= (#[trigger] sorted@[j]).0 by {
                    if i < at && j > at {
                        assert(before[i].0 <= before[j - 1].0);
                    } else if i == at {
                        assert(before[at as int].0 <= before[j - 1].0);
                    }
                }
            }
        }
    }
    assert(rest@.to_multiset() =~= Multiset::empty()) by {
        to_multiset_len(rest@);
    }
    assert(sorted@.to_multiset() =~= all);
    sorted
}

/// Whether the blocks are those from the height `from` to the height `to`, each once, in any order.
pub open spec fn is_download(blocks: Seq<(u64, Block)>, from: u64, to: u64) -> bool {
    &&& from <= to
    &&& blocks.len() == to - from + 1
    &&& forall|i: int| 0 <= i < blocks.len() ==> from <= (#[trigger] blocks[i]).0 <= to
    &&& forall|i: int, j: int|
        0 <= i < j < blocks.len() ==> (#[trigger] blocks[i]).0 != (#[trigger] blocks[j]).0
}

/// In the order of their heights, the blocks from one height to another follow each other without
/// a gap.
pub proof fn law_sorted_download(
    blocks: Seq<(u64, Block)>,
    sorted: Seq<(u64, Block)>,
    from: u64,
    to: u64,
)
    requires
        is_download(blocks, from, to),
        in_order(sorted),
        sorted.to_multiset() == blocks.to_multiset(),
    ensures
        sorted.len() == to - from + 1,
        forall|i: int| 0 <= i < sorted.len() ==> (#[trigger] sorted[i]).0 == from + i,
        forall|i: int| 0 <= i < sorted.len() ==> blocks.contains(#[trigger] sorted[i]),
{
    to_multiset_len(blocks);
    to_multiset_len(sorted);
    assert forall|i: int| 0 <= i < sorted.len() implies blocks.contains(#[trigger] sorted[i]) by {
        to_multiset_contains(sorted, sorted[i]);
        to_multiset_contains(blocks, sorted[i]);
    }
    assert(blocks.no_duplicates()) by {
        assert forall|i: int, j: int|
            0 <= i < blocks.len() && 0 <= j < blocks.len() && i != j implies blocks[i]
            != blocks[j] by {
            if i < j {
                assert(blocks[i].0 != blocks[j].0);
            } else {
                assert(blocks[j].0 != blocks[i].0);
            }
        }
    }
    blocks.lemma_multiset_has_no_duplicates();
    sorted.lemma_multiset_has_no_duplicates_conv();
    assert forall|i: int, j: int| 0 <= i < j < sorted.len() implies (#[trigger] sorted[i]).0 < (
    #[trigger] sorted[j]).0 by {
        assert(sorted[i].0 <= sorted[j].0);
        if sorted[i].0 == sorted[j].0 {
            assert(sorted[i] != sorted[j]);
            let a = blocks.index_of(sorted[i]);
            let b = blocks.index_of(sorted[j]);
            assert(blocks[a] == sorted[i] && blocks[b] == sorted[j]);
            if a < b {
                assert(blocks[a].0 != blocks[b].0);
            } else {
                assert(blocks[b].0 != blocks[a].0);
            }
        }
    }
    assert forall|i: int| 0 <= i < sorted.len() implies (#[trigger] sorted[i]).0 == from + i by {
        lemma_at_least(sorted, from, i);
        lemma_at_most(sorted, to, i);
    }
}

/// Heights that increase from at least `from` on have reached `from + i` after `i` steps.
proof fn lemma_at_least(sorted: Seq<(u64, Block)>, from: u64, i: int)
    requires
        0 <= i < sorted.len(),
        forall|k: int, l: int|
            0 <= k < l < sorted.len() ==> (#[trigger] sorted[k]).0 < (#[trigger] sorted[l]).0,
        sorted[0].0 >= from,
    ensures
        sorted[i].0 >= from + i,
    decreases i,
{
    if i > 0 {
        lemma_at_least(sorted, from, i - 1);
        assert(sorted[i - 1].0 < sorted[i].0);
    }
}

/// Heights that increase to at most `to` are that far below it as there are steps left.
proof fn lemma_at_most(sorted: Seq<(u64, Block)>, to: u64, i: int)
    requires
        0 <= i < sorted.len(),
        forall|k: int, l: int|
            0 <= k < l < sorted.len() ==> (#[trigger] sorted[k]).0 < (#[trigger] sorted[l]).0,
        sorted.last().0 <= to,
    ensures
        sorted[i].0 <= to - (sorted.len() - 1 - i),
    decreases sorted.len() - i,
{
    if i < sorted.len() - 1 {
        lemma_at_most(sorted, to, i + 1);
        assert(sorted[i].0 < sorted[i + 1].0);
    }
}

/// What is to be done next goes by the first block that was not analyzed: from there on all blocks
/// up to the tip are downloaded, and where it is above the tip, the tip is polled.
pub proof fn law_next_step(listener: BlockListener)
    requires
        listener.wf(),
    ensures
        match listener.step() {
            ListenerStep::Download(from, to) => {
                &&& from <= to
                &&& to == listener.current_height
                &&& listener.analyzed_height is None ==> from == listener.start_block_height
                &&& listener.analyzed_height matches Some(height) ==> from == height + 1
            },
            ListenerStep::Poll => {
                &&& listener.analyzed_height is None ==> listener.start_block_height
                    > listener.current_height
                &&& listener.analyzed_height matches Some(height) ==> height
                    == listener.current_height
            },
        },
{
}

/// The tip that is followed is the highest that was polled, and nothing else changes with a poll but
/// that it was said, or has to be said again, that there is nothing left to do. Analyzing the next
/// block moves on by that block alone.
pub proof fn law_polled(listener: BlockListener, new_height: u64)
    ensures
        ({
            let polled = listener.polled(new_height);
            let advanced = listener.advanced();
            &&& polled.current_height >= new_height
            &&& polled.current_height >= listener.current_height
            &&& polled.current_height == new_height || polled.current_height
                == listener.current_height
            &&& polled.fully_synced_logged <==> new_height <= listener.current_height
            &&& polled.start_block_height == listener.start_block_height
            &&& polled.analyzed_height == listener.analyzed_height
            &&& advanced.current_height == listener.current_height
            &&& advanced.start_block_height == listener.start_block_height
            &&& !advanced.fully_synced_logged
            &&& listener.analyzed_height is None ==> advanced.analyzed_height == Some(
                listener.start_block_height,
            )
            &&& listener.analyzed_height matches Some(height) ==> (height < u64::MAX
                ==> advanced.analyzed_height == Some((height + 1) as u64))
        }),
{
}

} // verus!
