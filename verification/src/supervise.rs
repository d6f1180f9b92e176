//! Process supervision: the data and decisions for running a child process
//! under a target identity with a captured environment, while its two output
//! streams are drained concurrently. Each stream gets its own independently
//! owned reader; a reader feeds the bytes it receives through a
//! `LineAccumulator`, which cuts them into lines without losing or
//! reordering a byte. The runner owns the spawning, the threads and the
//! pipes; everything it must decide — what to configure on the child, where
//! line boundaries fall, what an exit status means — is decided here.
use vstd::prelude::*;

use crate::UserIdentity;
use crate::envmap::EnvironmentMap;
use crate::harvest::LINE_FEED;
use crate::harvest::split_lines;

verus! {

/// Everything a child process is configured with, assembled before the
/// child exists: the command, the identity to run it as, and the exact
/// environment to give it (the child never inherits the caller's own). A
/// runner applies the whole plan atomically at process creation and never
/// mutates it after the spawn.
pub struct ExecutionPlan {
    pub program: String,
    pub args: Vec<String>,
    pub uid: u32,
    pub gid: u32,
    pub env: EnvironmentMap,
}

/// Assembles the configuration of a child process from a fully constructed
/// identity and environment, unchanged.
pub fn execution_plan(
    program: String,
    args: Vec<String>,
    identity: &UserIdentity,
    env: EnvironmentMap,
) -> (p: ExecutionPlan)
    ensures
        p.program == program,
        p.args == args,
        p.uid == identity.uid,
        p.gid == identity.gid,
        p.env == env,
{
    ExecutionPlan { program, args, uid: identity.uid, gid: identity.gid, env }
}

/// Which of the child's output streams a line came from.
#[derive(Debug, Clone, Copy, PartialEq, Eq)]
pub enum StreamSource {
    Stdout,
    Stderr,
}

/// One completed line of child output, tagged with its stream of origin.
#[derive(Debug, Clone, PartialEq, Eq)]
pub struct TaggedLine {
    pub source: StreamSource,
    pub bytes: Vec<u8>,
}

/// How a child process ended: a normal exit with its code, or termination
/// by a signal.
#[derive(Debug, Clone, Copy, PartialEq, Eq)]
pub enum ExitOutcome {
    Exited(i32),
    Signaled,
}

/// Classifies a child's exit: a normal exit carries its code; no code means
/// the process was terminated by a signal.
pub fn exit_outcome(code: Option<i32>) -> (r: ExitOutcome)
    ensures
        code matches Some(c) ==> r == ExitOutcome::Exited(c),
        code is None ==> r == ExitOutcome::Signaled,
{
    match code {
        Some(c) => ExitOutcome::Exited(c),
        None => ExitOutcome::Signaled,
    }
}

impl ExitOutcome {
    /// Whether this is a normal exit with code zero.
    pub fn is_success(&self) -> (r: bool)
        ensures
            r <==> *self == ExitOutcome::Exited(0),
    {
        match self {
            ExitOutcome::Exited(c) => *c == 0,
            ExitOutcome::Signaled => false,
        }
    }
}

/// The views of a sequence of byte lines.
pub open spec fn line_views(ls: Seq<Vec<u8>>) -> Seq<Seq<u8>> {
    ls.map_values(|l: Vec<u8>| l@)
}

/// The lines of a byte sequence that a line feed has completed: every
/// segment but the trailing, still-open one.
pub open spec fn completed_lines(s: Seq<u8>) -> Seq<Seq<u8>> {
    split_lines(s).drop_last()
}

/// The byte sequence a segment split denotes: the segments joined by line
/// feeds.
pub open spec fn join_lines(segs: Seq<Seq<u8>>) -> Seq<u8>
    decreases segs.len(),
{
    if segs.len() == 0 {
        Seq::<u8>::empty()
    } else if segs.len() == 1 {
        segs[0]
    } else {
        join_lines(segs.drop_last()) + seq![LINE_FEED] + segs.last()
    }
}

/// Law: splitting a stream into lines loses nothing and reorders nothing —
/// joining the split segments with line feeds yields exactly the original
/// bytes. So a reader that takes its lines from a `LineAccumulator` observes
/// every byte of its stream, in order.
pub proof fn lemma_lines_reconstruct(s: Seq<u8>)
    ensures
        join_lines(split_lines(s)) =~= s,
    decreases s.len(),
{
    if s.len() == 0 {
    } else {
        lemma_lines_reconstruct(s.drop_last());
        crate::harvest::lemma_split_lines_segments(s.drop_last());
        let rest = split_lines(s.drop_last());
        let c = s.last();
        assert(s =~= s.drop_last().push(c));
        if c == LINE_FEED {
            let segs = rest.push(Seq::<u8>::empty());
            assert(segs.drop_last() =~= rest);
            assert(join_lines(segs) =~= join_lines(rest) + seq![LINE_FEED]);
            assert(join_lines(segs) =~= s);
        } else {
            let ext = rest.last().push(c);
            let segs = rest.update(rest.len() - 1, ext);
            if rest.len() == 1 {
                assert(join_lines(segs) == segs[0]);
                assert(segs[0] =~= rest[0].push(c));
                assert(join_lines(rest) == rest[0]);
                assert(join_lines(segs) =~= s);
            } else {
                assert(segs.drop_last() =~= rest.drop_last());
                assert(segs.last() == ext);
                assert(join_lines(segs) == join_lines(rest.drop_last()) + seq![LINE_FEED] + ext);
                assert(join_lines(rest) == join_lines(rest.drop_last()) + seq![LINE_FEED]
                    + rest.last());
                assert(join_lines(segs) =~= join_lines(rest).push(c));
                assert(join_lines(segs) =~= s);
            }
        }
    }
}

/// Cuts a stream of bytes into lines as the bytes arrive, owned by exactly
/// one reader. Bytes that no line feed has completed yet wait in the
/// accumulator; no byte is dropped and none crosses a line boundary. Its
/// view is the whole byte sequence consumed so far.
pub struct LineAccumulator {
    seen: Ghost<Seq<u8>>,
    pending: Vec<u8>,
}

impl View for LineAccumulator {
    type V = Seq<u8>;

    closed spec fn view(&self) -> Seq<u8> {
        self.seen@
    }
}

impl LineAccumulator {
    /// The pending bytes are exactly the trailing, still-open segment of
    /// everything consumed.
    pub closed spec fn wf(&self) -> bool {
        self.pending@ == split_lines(self.seen@).last()
    }

    /// An accumulator that has consumed nothing.
    pub fn new() -> (a: Self)
        ensures
            a@ == Seq::<u8>::empty(),
            a.wf(),
    {
        let a = (LineAccumulator { seen: Ghost(Seq::<u8>::empty()), pending: Vec::new() });
        proof {
            assert(a.pending@ =~= split_lines(a.seen@).last());
        }
        a
    }

    /// Consumes the next bytes of the stream and hands back, in order, the
    /// lines they completed (without their line feeds).
    pub fn push_chunk(&mut self, chunk: &Vec<u8>) -> (lines: Vec<Vec<u8>>)
        requires
            old(self).wf(),
        ensures
            final(self).wf(),
            final(self)@ == old(self)@ + chunk@,
            completed_lines(final(self)@) == completed_lines(old(self)@) + line_views(lines@),
    {
        let mut out: Vec<Vec<u8>> = Vec::new();
        proof {
            assert(self.seen@ + chunk@.take(0) =~= self.seen@);
            assert(completed_lines(self.seen@) + line_views(out@) =~= completed_lines(self.seen@));
        }
        let ghost seen0 = self.seen@;
        let mut i: usize = 0;
        while i < chunk.len()
            invariant
                i <= chunk@.len(),
                self.seen@ == seen0 + chunk@.take(i as int),
                self.wf(),
                completed_lines(self.seen@) == completed_lines(seen0) + line_views(out@),
            decreases chunk@.len() - i,
        {
            let ghost seen_pre = self.seen@;
            let c = chunk[i];
            proof {
                crate::harvest::lemma_split_lines_segments(seen_pre);
                assert(seen_pre.push(c).drop_last() =~= seen_pre);
                assert(seen_pre.push(c).last() == c);
                assert(seen0 + chunk@.take(i + 1) =~= seen_pre.push(c));
            }
            if c == LINE_FEED {
                let ghost out_old = out@;
                let line = self.pending.split_off(0);
                let ghost lv = line@;
                proof {
                    assert(lv =~= split_lines(seen_pre).last());
                }
                out.push(line);
                self.seen = Ghost(seen_pre.push(c));
                proof {
                    let segs = split_lines(seen_pre);
                    assert(split_lines(seen_pre.push(c)) == segs.push(Seq::<u8>::empty()));
                    assert(completed_lines(seen_pre.push(c)) =~= segs);
                    assert(segs =~= completed_lines(seen_pre).push(lv));
                    assert(line_views(out@) =~= line_views(out_old).push(lv));
                    assert(completed_lines(seen0) + line_views(out_old).push(lv)
                        =~= (completed_lines(seen0) + line_views(out_old)).push(lv));
                    assert(completed_lines(seen_pre.push(c)) =~= completed_lines(seen0)
                        + line_views(out@));
                    assert(self.pending@ =~= split_lines(self.seen@).last());
                }
            } else {
                self.pending.push(c);
                self.seen = Ghost(seen_pre.push(c));
                proof {
                    let segs = split_lines(seen_pre);
                    let segs2 = split_lines(seen_pre.push(c));
                    assert(segs2 == segs.update(segs.len() - 1, segs.last().push(c)));
                    assert(completed_lines(seen_pre.push(c)) =~= completed_lines(seen_pre));
                    assert(self.pending@ =~= segs2.last());
                }
            }
            i = i + 1;
        }
        proof {
            assert(seen0 + chunk@.take(i as int) =~= seen0 + chunk@);
        }
        out
    }

    /// Ends the stream: the trailing bytes that no line feed completed, if
    /// any — the final line of a stream that did not end in a line feed.
    pub fn finish(self) -> (rest: Option<Vec<u8>>)
        requires
            self.wf(),
        ensures
            match rest {
                Some(l) => l@ == split_lines(self@).last() && l@.len() > 0,
                None => split_lines(self@).last().len() == 0,
            },
    {
        if self.pending.is_empty() {
            None
        } else {
            Some(self.pending)
        }
    }
}

} // verus!
