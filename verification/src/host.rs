//! What the VM asks of its surroundings.
use vstd::prelude::*;

use crate::expr::BinOp;
use crate::value::{Value, ValueV};

verus! {

/// The VM's surroundings: console input and output, and the floating-point
/// arithmetic and formatting that this library leaves to the platform.
/// Nothing is assumed of what an implementation returns.
pub trait Host {
    /// Writes `text`; followed by a newline when `newline`, else flushed.
    fn write(&mut self, text: &str, newline: bool);

    /// Reads one line of input, line terminator included.
    fn read_line(&mut self) -> String;

    /// Applies a binary operator to two floats of one width (`F32` or
    /// `F64` bit patterns): arithmetic gives a float, a comparison a `Bool`.
    fn float_binary(&self, op: BinOp, a: &Value, b: &Value) -> Value;

    /// The text of a float as `Display` writes it.
    fn float_text(&self, v: &Value) -> String;

    /// The `f32` bit pattern of `text` read as a float, if it reads as one.
    fn float_bits(&self, text: &str) -> Option<u32>;
}

/// The text a write of `text` puts on the console.
pub open spec fn written_text(text: Seq<char>, newline: bool) -> Seq<char> {
    if newline { text.push('\n') } else { text }
}

/// One answer the host gave the VM, with what it was asked.
pub enum HostEvent {
    /// `read_line` gave this line.
    Line(Seq<char>),
    /// `float_binary(op, a, b)` gave this value.
    Float(BinOp, ValueV, ValueV, ValueV),
    /// `float_text(v)` gave this text.
    Text(ValueV, Seq<char>),
    /// `float_bits(text)` gave this reading.
    Bits(Seq<char>, Option<u32>),
}

/// A host together with a record of what the VM has handed it: the text
/// written so far, and every answer it gave, with its question, in order.
pub struct Console<H: Host> {
    host: H,
    written: Ghost<Seq<char>>,
    events: Ghost<Seq<HostEvent>>,
}

impl<H: Host> Console<H> {
    /// Everything written to the host through this console, in order.
    pub closed spec fn written(&self) -> Seq<char> {
        self.written@
    }

    /// Every answer the host gave through this console, in order.
    pub closed spec fn events(&self) -> Seq<HostEvent> {
        self.events@
    }

    /// A console over `host` that has written and asked nothing.
    pub fn new(host: H) -> (c: Self)
        ensures
            c.written() == Seq::<char>::empty(),
            c.events() == Seq::<HostEvent>::empty(),
    {
        Console { host, written: Ghost(Seq::empty()), events: Ghost(Seq::empty()) }
    }

    /// The host.
    pub fn host(&self) -> &H {
        &self.host
    }

    /// Gives the host back.
    pub fn into_host(self) -> H {
        self.host
    }

    /// Hands `text` to the host, followed by a newline when `newline`.
    pub fn write(&mut self, text: &str, newline: bool)
        ensures
            final(self).written() == old(self).written() + written_text(text@, newline),
            final(self).events() == old(self).events(),
    {
        self.host.write(text, newline);
        self.written = Ghost(self.written@ + written_text(text@, newline));
    }

    /// Asks the host for one line of input.
    pub fn read_line(&mut self) -> (r: String)
        ensures
            final(self).events() == old(self).events().push(HostEvent::Line(r@)),
            final(self).written() == old(self).written(),
    {
        let r = self.host.read_line();
        self.events = Ghost(self.events@.push(HostEvent::Line(r@)));
        r
    }

    /// Asks the host to apply `op` to two floats.
    pub fn float_binary(&mut self, op: BinOp, a: &Value, b: &Value) -> (r: Value)
        ensures
            final(self).events() == old(self).events().push(HostEvent::Float(op, a@, b@, r@)),
            final(self).written() == old(self).written(),
    {
        let r = self.host.float_binary(op, a, b);
        self.events = Ghost(self.events@.push(HostEvent::Float(op, a@, b@, r@)));
        r
    }

    /// Asks the host for the text of a float.
    pub fn float_text(&mut self, v: &Value) -> (r: String)
        ensures
            final(self).events() == old(self).events().push(HostEvent::Text(v@, r@)),
            final(self).written() == old(self).written(),
    {
        let r = self.host.float_text(v);
        self.events = Ghost(self.events@.push(HostEvent::Text(v@, r@)));
        r
    }

    /// Asks the host to read `text` as an `f32`.
    pub fn float_bits(&mut self, text: &str) -> (r: Option<u32>)
        ensures
            final(self).events() == old(self).events().push(HostEvent::Bits(text@, r)),
            final(self).written() == old(self).written(),
    {
        let r = self.host.float_bits(text);
        self.events = Ghost(self.events@.push(HostEvent::Bits(text@, r)));
        r
    }
}

/// `a` is a prefix of `b`.
pub open spec fn is_prefix(a: Seq<HostEvent>, b: Seq<HostEvent>) -> bool {
    a.len() <= b.len() && forall|i: int| 0 <= i < a.len() ==> #[trigger] b[i] == a[i]
}

/// The answers between two states of a console, followed by `rest`: the
/// answers that come after.
pub open spec fn io_in<H: Host>(before: Console<H>, after: Console<H>, rest: Seq<HostEvent>) -> Seq<HostEvent> {
    after.events().skip(before.events().len() as int) + rest
}

/// Nothing asked: nothing taken.
pub proof fn lemma_io_in_same<H: Host>(c: Console<H>)
    ensures
        forall|rest: Seq<HostEvent>| #[trigger] (c.events().skip(c.events().len() as int) + rest) == rest,
        forall|rest: Seq<HostEvent>| #[trigger] io_in(c, c, rest) == rest,
        is_prefix(c.events(), c.events()),
{
    assert forall|rest: Seq<HostEvent>| #[trigger] (c.events().skip(c.events().len() as int) + rest) == rest by {
        assert(c.events().skip(c.events().len() as int) + rest =~= rest);
    }
}

/// One answer taken.
pub proof fn lemma_io_in_one<H: Host>(a: Console<H>, b: Console<H>, e: HostEvent)
    requires
        b.events() == a.events().push(e),
    ensures
        is_prefix(a.events(), b.events()),
        forall|rest: Seq<HostEvent>| #[trigger] io_in(a, b, rest) == seq![e] + rest,
        forall|rest: Seq<HostEvent>| (#[trigger] io_in(a, b, rest)).len() > 0 && io_in(a, b, rest)[0] == e
            && io_in(a, b, rest).drop_first() == rest,
{
    assert(b.events().skip(a.events().len() as int) =~= seq![e]);
    assert forall|rest: Seq<HostEvent>| (#[trigger] io_in(a, b, rest)).len() > 0 && io_in(a, b, rest)[0] == e
        && io_in(a, b, rest).drop_first() == rest by {
        assert(io_in(a, b, rest).drop_first() =~= rest);
    }
}

/// The answers from `a` to `c` are those from `a` to `b`, then those from
/// `b` to `c`.
pub proof fn lemma_io_in_chain<H: Host>(a: Console<H>, b: Console<H>, c: Console<H>)
    requires
        is_prefix(a.events(), b.events()),
        is_prefix(b.events(), c.events()),
    ensures
        is_prefix(a.events(), c.events()),
        forall|rest: Seq<HostEvent>| #[trigger] io_in(a, c, rest) == io_in(a, b, io_in(b, c, rest)),
{
    let (la, lb, lc) = (a.events(), b.events(), c.events());
    assert forall|rest: Seq<HostEvent>| #[trigger] io_in(a, c, rest) == io_in(a, b, io_in(b, c, rest)) by {
        assert(lc.skip(la.len() as int) =~= lb.skip(la.len() as int) + lc.skip(lb.len() as int)) by {
            assert forall|i: int| 0 <= i < lc.len() - la.len() implies lc.skip(la.len() as int)[i]
                == (lb.skip(la.len() as int) + lc.skip(lb.len() as int))[i] by {
                if la.len() + i < lb.len() {
                    assert(lc[la.len() + i] == lb[la.len() + i]);
                }
            }
        }
        assert(io_in(a, c, rest) =~= io_in(a, b, io_in(b, c, rest)));
    }
}

} // verus!
