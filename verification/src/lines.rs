//! Line sources: the policy that produces a relay's next contributed line.
//!
//! The mailroom asks a line source for one line per period. The library
//! ships the round-robin poem source; any other policy can implement
//! [`GetNextLine`] outside the library.

use vstd::prelude::*;

verus! {

/// One authored line, ready to be turned into a message.
#[derive(Debug, Clone, PartialEq, Eq)]
pub struct NextLine {
    pub line: String,
    pub author: String,
}

/// The history of a line source's draws: for each draw so far, the line
/// and author it handed out, or `None` for a draw with nothing to give.
pub type DrawnView = Seq<Option<(Seq<char>, Seq<char>)>>;

/// The draw-history entry a result stands for.
pub open spec fn drawn_entry(r: Option<NextLine>) -> Option<(Seq<char>, Seq<char>)> {
    match r {
        Some(nl) => Some((nl.line@, nl.author@)),
        None => None,
    }
}

/// A source of authored lines; `None` means nothing to contribute this
/// period. `drawn` is the history of what the source has handed out, and
/// every draw appends what it returned, so properties of a source's run
/// (a non-repeating poem, say) can be stated over it.
pub trait GetNextLine: Sized {
    /// What this source has handed out so far, in order.
    spec fn drawn(&self) -> DrawnView;

    fn get_next_line(&mut self) -> (r: Option<NextLine>)
        ensures
            final(self).drawn() == old(self).drawn().push(drawn_entry(r)),
    ;
}

/// A round-robin line source: hands out the lines of a poem in order,
/// wrapping around at the end.
pub struct LineGenerator {
    pub author: String,
    pub poem: Vec<String>,
    pub i: usize,
    pub history: Ghost<DrawnView>,
}

impl LineGenerator {
    /// A generator positioned on this index: at the start, or wherever a
    /// wrap landed.
    pub open spec fn wf(&self) -> bool {
        if self.poem@.len() == 0 {
            self.i == 0
        } else {
            self.i < self.poem@.len()
        }
    }

    /// A fresh generator at the top of the poem, with no draws yet.
    pub fn new(author: String, poem: Vec<String>) -> (r: Self)
        ensures
            r.author@ == author@,
            r.poem@ == poem@,
            r.i == 0,
            r.drawn() == Seq::<Option<(Seq<char>, Seq<char>)>>::empty(),
            r.wf(),
    {
        LineGenerator { author, poem, i: 0, history: Ghost(Seq::empty()) }
    }

    /// Replace the poem and restart from its top.
    pub fn update_poem(&mut self, poem: Vec<String>)
        ensures
            final(self).poem == poem,
            final(self).author == old(self).author,
            final(self).i == 0,
            final(self).drawn() == old(self).drawn(),
            final(self).wf(),
    {
        self.poem = poem;
        self.i = 0;
    }
}

impl GetNextLine for LineGenerator {
    /// The draws so far.
    open spec fn drawn(&self) -> DrawnView {
        self.history@
    }

    /// The next line of the poem, and a step forward, wrapping at the
    /// end. An empty poem yields nothing. (Where the index is out of
    /// step with the poem, it restarts at the top.)
    fn get_next_line(&mut self) -> (r: Option<NextLine>)
        ensures
            final(self).author == old(self).author,
            final(self).poem == old(self).poem,
            old(self).poem@.len() == 0 ==> r is None && final(self).i == 0,
            old(self).poem@.len() > 0 && old(self).wf() ==> {
                &&& r matches Some(nl)
                &&& (r matches Some(nl) ==> nl.line@ == old(self).poem@[old(self).i as int]@
                    && nl.author@ == old(self).author@)
                &&& final(self).i == (old(self).i + 1) % (old(self).poem@.len() as int)
            },
            final(self).wf(),
    {
        if self.poem.len() == 0 {
            self.i = 0;
            proof {
                self.history@ = self.history@.push(None);
            }
            return None;
        }
        if self.i >= self.poem.len() {
            self.i = 0;
        }
        let line = self.poem[self.i].clone();
        let author = self.author.clone();
        self.i = (self.i + 1) % self.poem.len();
        let r = Some(NextLine { line, author });
        proof {
            self.history@ = self.history@.push(drawn_entry(r));
        }
        r
    }
}

} // verus!
