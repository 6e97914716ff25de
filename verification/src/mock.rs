//! A scripted, software-simulated controller: a [`PortAccess`]
//! implementation that records every byte written and answers data-read
//! attempts from a fixed script.  It lets the whole protocol run with no
//! hardware behind it.

use vstd::prelude::*;

use crate::port::{PortAccess, PortByte};

verus! {

/// A port layer driven by a script.  The `n`-th data-read attempt gets the
/// `n`-th scripted outcome; attempts past the end of the script read
/// absent.  Writes are accepted while `accept_writes` holds and refused
/// otherwise, as a controller with a stuck input buffer would.
pub struct MockPort {
    /// The outcomes handed out to successive data-read attempts.
    pub script: Vec<Option<u8>>,
    /// How many scripted outcomes have been consumed.
    pub next: usize,
    /// Every byte written so far, in order.
    pub log: Vec<PortByte>,
    /// Whether the input buffer accepts data bytes.
    pub accept_writes: bool,
    /// The recorded outcome of every data-read attempt.
    pub reads: Ghost<Seq<Option<u8>>>,
    /// How many data-write offers were made.
    pub offers: usize,
    /// The recorded outcome of every data-write offer.
    pub writes: Ghost<Seq<bool>>,
}

impl MockPort {
    /// A fresh mock with clean histories that will answer data reads from
    /// `script` and accept every write.
    pub fn new(script: Vec<Option<u8>>) -> (r: MockPort)
        ensures
            r.script@ == script@,
            r.next == 0,
            r.log@ == Seq::<PortByte>::empty(),
            r.accept_writes == true,
            r.offers == 0,
            r.reads@ == Seq::<Option<u8>>::empty(),
            r.writes@ == Seq::<bool>::empty(),
    {
        MockPort {
            script,
            next: 0,
            log: Vec::new(),
            accept_writes: true,
            offers: 0,
            reads: Ghost(Seq::empty()),
            writes: Ghost(Seq::empty()),
        }
    }
}

impl PortAccess for MockPort {
    open spec fn tx(&self) -> Seq<PortByte> {
        self.log@
    }

    open spec fn rx(&self) -> Seq<Option<u8>> {
        self.reads@
    }

    open spec fn wx(&self) -> Seq<bool> {
        self.writes@
    }

    fn write_command(&mut self, value: u8)
        ensures
            final(self).script@ == old(self).script@,
            final(self).next == old(self).next,
            final(self).accept_writes == old(self).accept_writes,
    {
        self.log.push(PortByte::Command(value));
    }

    fn try_write_data(&mut self, value: u8) -> (accepted: bool)
        ensures
            accepted == old(self).accept_writes,
            final(self).script@ == old(self).script@,
            final(self).next == old(self).next,
            final(self).accept_writes == old(self).accept_writes,
    {
        let accepted = self.accept_writes;
        if accepted {
            self.log.push(PortByte::Data(value));
        }
        if self.offers < usize::MAX {
            self.offers = self.offers + 1;
        }
        self.writes = Ghost(self.writes@.push(accepted));
        accepted
    }

    fn try_read_data(&mut self) -> (r: Option<u8>)
        ensures
            r == (if old(self).next < old(self).script@.len() {
                old(self).script@[old(self).next as int]
            } else {
                None
            }),
            final(self).script@ == old(self).script@,
            final(self).next as int == (if old(self).next < old(self).script@.len() {
                old(self).next + 1
            } else {
                old(self).next as int
            }),
            final(self).accept_writes == old(self).accept_writes,
    {
        let r = if self.next < self.script.len() {
            let v = self.script[self.next];
            self.next = self.next + 1;
            v
        } else {
            None
        };
        self.reads = Ghost(self.reads@.push(r));
        r
    }
}

} // verus!
