//! Resume cursor of an interrupted run.
//!
//! A run that is stopped records the relative path it was about to process. The
//! next run skips everything that sorts before that path and processes the path
//! itself again, because the cursor is recorded before the entry is handled.

use vstd::prelude::*;
use crate::config::{is_normal_segment, split_segments};
use crate::text::{chars_equal, chars_less, seq_less};

verus! {

/// The components of a stored relative path: pieces between `/` or `\`, without
/// empty pieces and `.`.
pub open spec fn relative_components(p: Seq<char>) -> Seq<Seq<char>> {
    split_segments(p).filter(|s: Seq<char>| is_normal_segment(s))
}

/// The views of a list of character vectors.
pub open spec fn views(v: Seq<Vec<char>>) -> Seq<Seq<char>> {
    v.map_values(|c: Vec<char>| c@)
}

proof fn lemma_split_nonempty(p: Seq<char>)
    ensures
        split_segments(p).len() >= 1,
    decreases p.len(),
{
    if p.len() > 0 {
        lemma_split_nonempty(p.drop_last());
    }
}

/// Splits a stored relative path into its components.
pub fn split_relative(p: &[char]) -> (r: Vec<Vec<char>>)
    ensures
        views(r@) == relative_components(p@),
{
    let ghost pred = |s: Seq<char>| is_normal_segment(s);
    let mut out: Vec<Vec<char>> = Vec::new();
    let mut current: Vec<char> = Vec::new();
    let mut i: usize = 0;
    while i < p.len()
        invariant
            i <= p@.len(),
            pred == (|s: Seq<char>| is_normal_segment(s)),
            split_segments(p@.subrange(0, i as int)).len() >= 1,
            current@ == split_segments(p@.subrange(0, i as int)).last(),
            views(out@) == split_segments(p@.subrange(0, i as int)).drop_last().filter(pred),
        decreases p@.len() - i,
    {
        let ghost before = p@.subrange(0, i as int);
        let ghost segs = split_segments(before);
        let c = p[i];
        let ghost next = p@.subrange(0, i + 1);
        proof {
            assert(next.drop_last() =~= before);
            assert(next.last() == c);
            lemma_split_nonempty(before);
        }
        if c == '/' || c == '\\' {
            let dot = current.len() == 1 && current[0] == '.';
            proof {
                assert(split_segments(next) == segs.push(Seq::empty()));
                assert(split_segments(next).drop_last() =~= segs);
                assert(segs =~= segs.drop_last().push(segs.last()));
                segs.drop_last().lemma_filter_push(segs.last(), pred);
                assert(dot == (current@ == seq!['.'])) by {
                    if current@.len() == 1 && current@[0] == '.' {
                        assert(current@ =~= seq!['.']);
                    }
                }
            }
            if current.len() > 0 && !dot {
                let ghost old_out = out@;
                out.push(current);
                proof {
                    assert(views(out@) =~= views(old_out).push(segs.last()));
                }
            }
            current = Vec::new();
        } else {
            current.push(c);
            proof {
                assert(split_segments(next) == segs.update(segs.len() - 1, segs.last().push(c)));
                assert(split_segments(next).drop_last() =~= segs.drop_last());
            }
        }
        i = i + 1;
    }
    proof {
        assert(p@.subrange(0, i as int) =~= p@);
        let segs = split_segments(p@);
        lemma_split_nonempty(p@);
        assert(segs =~= segs.drop_last().push(segs.last()));
        segs.drop_last().lemma_filter_push(segs.last(), pred);
    }
    let dot = current.len() == 1 && current[0] == '.';
    proof {
        assert(dot == (current@ == seq!['.'])) by {
            if current@.len() == 1 && current@[0] == '.' {
                assert(current@ =~= seq!['.']);
            }
        }
    }
    if current.len() > 0 && !dot {
        let ghost old_out = out@;
        out.push(current);
        proof {
            assert(views(out@) =~= views(old_out).push(split_segments(p@).last()));
        }
    }
    out
}

/// What to do with an entry met while looking for the resume point.
#[derive(Clone, Copy, Debug, PartialEq, Eq, Structural)]
pub enum ResumeProbe {
    /// Already handled by the interrupted run: skip it.
    Skip,
    /// A folder on the way to the resume point: go in and keep looking.
    Descend,
    /// The resume point is reached or passed: handle the entry as usual.
    Process,
}

/// The point an interrupted run resumes from, while it has not been reached.
#[derive(Clone, Debug)]
pub struct ResumeCursor {
    pub components: Option<Vec<Vec<char>>>,
}

/// Outcome of meeting `name` at `depth`: the probe and whether the cursor is
/// still pending afterwards.
pub open spec fn probe_result(
    components: Option<Seq<Seq<char>>>,
    depth: nat,
    name: Seq<char>,
) -> (ResumeProbe, bool) {
    match components {
        None => (ResumeProbe::Process, false),
        Some(c) => if depth >= c.len() {
            (ResumeProbe::Process, false)
        } else if seq_less(name, c[depth as int]) {
            (ResumeProbe::Skip, true)
        } else if name != c[depth as int] {
            (ResumeProbe::Process, false)
        } else if depth + 1 >= c.len() {
            (ResumeProbe::Process, false)
        } else {
            (ResumeProbe::Descend, true)
        },
    }
}

impl ResumeCursor {
    pub open spec fn view_components(&self) -> Option<Seq<Seq<char>>> {
        match self.components {
            Some(c) => Some(views(c@)),
            None => None,
        }
    }

    /// No resume point: every entry is handled.
    pub fn none() -> (r: ResumeCursor)
        ensures
            r.view_components() is None,
    {
        ResumeCursor { components: None }
    }

    /// Resume from the given relative path; a path without components resumes
    /// nothing.
    pub fn from_path(relative_path: &[char]) -> (r: ResumeCursor)
        ensures
            relative_components(relative_path@).len() == 0 ==> r.view_components() is None,
            relative_components(relative_path@).len() > 0 ==> r.view_components() == Some(
                relative_components(relative_path@),
            ),
    {
        let components = split_relative(relative_path);
        if components.len() > 0 {
            ResumeCursor { components: Some(components) }
        } else {
            ResumeCursor { components: None }
        }
    }

    /// Whether the resume point is still ahead.
    pub fn is_resuming(&self) -> (r: bool)
        ensures
            r == (self.view_components() is Some),
    {
        self.components.is_some()
    }

    /// Compares the entry `name` met at `depth` with the resume point.
    pub fn probe(&mut self, depth: usize, name: &[char]) -> (r: ResumeProbe)
        ensures
            r == probe_result(old(self).view_components(), depth as nat, name@).0,
            probe_result(old(self).view_components(), depth as nat, name@).1 ==> final(self).view_components() == old(self).view_components(),
            !probe_result(old(self).view_components(), depth as nat, name@).1 ==> final(self).view_components() is None,
    {
        let (result, keep) = match &self.components {
            None => (ResumeProbe::Process, false),
            Some(c) => {
                if depth >= c.len() {
                    (ResumeProbe::Process, false)
                } else {
                    let expected = &c[depth];
                    proof {
                        assert(views(c@)[depth as int] == expected@);
                    }
                    if chars_less(name, expected.as_slice()) {
                        (ResumeProbe::Skip, true)
                    } else if !chars_equal(name, expected.as_slice()) {
                        (ResumeProbe::Process, false)
                    } else if depth + 1 >= c.len() {
                        (ResumeProbe::Process, false)
                    } else {
                        (ResumeProbe::Descend, true)
                    }
                }
            },
        };
        if !keep {
            self.components = None;
        }
        result
    }
}

} // verus!
