//! An indentation-aware text sink.
use vstd::prelude::*;

verus! {

/// `n` tab characters.
pub open spec fn tabs(n: nat) -> Seq<char> {
    Seq::new(n, |i: int| '\t')
}

/// The level one step back from `n`; at level 0 it stays 0.
pub open spec fn dedent_level(n: nat) -> nat {
    if n == 0 {
        0
    } else {
        (n - 1) as nat
    }
}

/// Going in one level and back out returns to the level one started at, and
/// going back out at level 0 stays there.
pub proof fn law_indent_dedent_balance(n: nat)
    ensures
        dedent_level(n + 1) == n,
        dedent_level(0) == 0,
{
}

/// Collects generated text and the current indentation level.
pub struct Emitter {
    out: String,
    indent: usize,
}

impl Emitter {
    /// The text written so far.
    pub closed spec fn text(&self) -> Seq<char> {
        self.out@
    }

    /// The current indentation level.
    pub closed spec fn level(&self) -> nat {
        self.indent as nat
    }

    /// An emitter with nothing written, at level 0.
    pub fn new() -> (r: Self)
        ensures
            r.text() == Seq::<char>::empty(),
            r.level() == 0,
    {
        Self { out: String::new(), indent: 0 }
    }

    /// The text written.
    pub fn finish(self) -> (r: String)
        ensures
            r@ == self.text(),
    {
        self.out
    }

    fn write_raw(&mut self, s: &str)
        ensures
            final(self).text() == old(self).text() + s@,
            final(self).level() == old(self).level(),
    {
        self.out.append(s);
    }

    /// Writes `s`.
    pub fn write(&mut self, s: &str)
        ensures
            final(self).text() == old(self).text() + s@,
            final(self).level() == old(self).level(),
    {
        self.write_raw(s);
    }

    /// Writes `s` with a space on each side.
    pub fn write_spaced(&mut self, s: &str)
        ensures
            final(self).text() == old(self).text() + seq![' '] + s@ + seq![' '],
            final(self).level() == old(self).level(),
    {
        proof {
            reveal_strlit(" ");
        }
        self.write_raw(" ");
        self.write_raw(s);
        self.write_raw(" ");
    }

    /// Writes the indentation, then `s`, then a line break.
    pub fn writeln(&mut self, s: &str)
        ensures
            final(self).text() == old(self).text() + tabs(old(self).level()) + s@ + seq!['\n'],
            final(self).level() == old(self).level(),
    {
        proof {
            reveal_strlit("\n");
        }
        self.emit_indent();
        self.write_raw(s);
        self.write_raw("\n");
    }

    /// Writes a line break, without indentation.
    pub fn newline(&mut self)
        ensures
            final(self).text() == old(self).text() + seq!['\n'],
            final(self).level() == old(self).level(),
    {
        proof {
            reveal_strlit("\n");
        }
        self.write_raw("\n");
    }

    /// Writes one tab per indentation level.
    pub fn emit_indent(&mut self)
        ensures
            final(self).text() == old(self).text() + tabs(old(self).level()),
            final(self).level() == old(self).level(),
    {
        let ghost start = self.out@;
        let ghost level = self.indent;
        let mut i: usize = 0;
        while i < self.indent
            invariant
                i <= self.indent,
                self.indent == level,
                self.out@ == start + tabs(i as nat),
            decreases self.indent - i,
        {
            proof {
                reveal_strlit("\t");
            }
            self.write_raw("\t");
            i = i + 1;
            assert(self.out@ =~= start + tabs(i as nat));
        }
    }

    /// Goes one level deeper.
    pub fn indent(&mut self)
        requires
            old(self).level() < usize::MAX,
        ensures
            final(self).text() == old(self).text(),
            final(self).level() == old(self).level() + 1,
    {
        self.indent = self.indent + 1;
    }

    /// Goes one level back; at level 0 it stays there.
    pub fn dedent(&mut self)
        ensures
            final(self).text() == old(self).text(),
            final(self).level() == dedent_level(old(self).level()),
    {
        self.indent = self.indent.saturating_sub(1);
    }
}

} // verus!
