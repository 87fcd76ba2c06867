//! The ingest queue: a FIFO of raw text messages shared by every producer
//! and drained by the sensor registry.

use vstd::prelude::*;
use queue::Queue;

verus! {

/// `queue::Queue`, a FIFO built around a `Vec`. Nothing inside it is
/// visible here; what it holds is spoken of through `mensagens` and
/// `limite`.
#[verifier::external_type_specification]
#[verifier::external_body]
#[verifier::reject_recursive_types(T)]
pub struct ExQueue<T>(Queue<T>);

/// The messages waiting in a queue, oldest first.
pub uninterp spec fn mensagens(q: Queue<String>) -> Seq<Seq<char>>;

/// The limit a queue was made with, if any.
pub uninterp spec fn limite(q: Queue<String>) -> Option<usize>;

/// `Queue::new`: an empty queue without a limit.
#[verifier::external_body]
fn fila_nova() -> (q: Queue<String>)
    ensures
        mensagens(q) == Seq::<Seq<char>>::empty(),
        limite(q) is None,
{
    Queue::new()
}

/// `Queue::queue`: appends the item at the back unless the queue already
/// holds as many items as its limit allows; the limit itself never changes.
#[verifier::external_body]
fn fila_inserir(q: &mut Queue<String>, item: String) -> (r: Result<usize, ()>)
    ensures
        limite(*final(q)) == limite(*old(q)),
        cheia(*old(q)) ==> r is Err && mensagens(*final(q)) == mensagens(*old(q)),
        !cheia(*old(q)) ==> r == Ok::<usize, ()>(mensagens(*final(q)).len() as usize)
            && mensagens(*final(q)) == mensagens(*old(q)).push(item@),
{
    q.queue(item)
}

/// `Queue::dequeue`: removes and returns the oldest item, or returns `None`
/// and leaves the queue as it is when nothing waits.
#[verifier::external_body]
fn fila_retirar(q: &mut Queue<String>) -> (r: Option<String>)
    ensures
        limite(*final(q)) == limite(*old(q)),
        mensagens(*old(q)).len() == 0 ==> r is None && mensagens(*final(q)) == mensagens(*old(q)),
        mensagens(*old(q)).len() > 0 ==> r is Some && r->0@ == mensagens(*old(q))[0]
            && mensagens(*final(q)) == mensagens(*old(q)).drop_first(),
{
    q.dequeue()
}

/// Whether a queue has reached its limit and refuses further items.
pub open spec fn cheia(q: Queue<String>) -> bool {
    match limite(q) {
        Some(cap) => mensagens(q).len() >= cap,
        None => false,
    }
}

/// The ingest queue: raw messages in the order in which they were accepted.
/// It has no limit, so it never refuses a message.
pub struct Fila {
    interna: Queue<String>,
}

impl View for Fila {
    type V = Seq<Seq<char>>;

    closed spec fn view(&self) -> Seq<Seq<char>> {
        mensagens(self.interna)
    }
}

impl Fila {
    #[verifier::type_invariant]
    spec fn inv(&self) -> bool {
        limite(self.interna) is None
    }

    /// An empty queue.
    pub fn new() -> (r: Self)
        ensures
            r@ == Seq::<Seq<char>>::empty(),
    {
        Fila { interna: fila_nova() }
    }

    /// Appends a message at the back.
    pub fn enfileirar(&mut self, msg: String)
        ensures
            final(self)@ == old(self)@.push(msg@),
    {
        proof {
            use_type_invariant(&*self);
        }
        let mut q = fila_nova();
        std::mem::swap(&mut self.interna, &mut q);
        let _ = fila_inserir(&mut q, msg);
        self.interna = q;
    }

    /// Removes and returns the oldest message; returns `None`, and changes
    /// nothing, when no message waits.
    pub fn desenfileirar(&mut self) -> (r: Option<String>)
        ensures
            old(self)@.len() == 0 ==> r is None && final(self)@ == old(self)@,
            old(self)@.len() > 0 ==> r is Some && r->0@ == old(self)@[0] && final(self)@ == old(
                self,
            )@.drop_first(),
    {
        proof {
            use_type_invariant(&*self);
        }
        let mut q = fila_nova();
        std::mem::swap(&mut self.interna, &mut q);
        let r = fila_retirar(&mut q);
        self.interna = q;
        r
    }
}

} // verus!
