use vstd::prelude::*;
use crate::element::is_subsequence;

verus! {

/// What a listener asks of the event loop.
#[derive(Clone, Copy, Debug, PartialEq, Eq, Structural)]
pub enum EventReturnCode {
    Continue,
    Cancel,
    Quit,
}

impl EventReturnCode {
    /// Whether the listeners after one that returned this code still run.
    pub open spec fn goes_on(self) -> bool {
        self == EventReturnCode::Continue
    }

    pub fn keeps_going(&self) -> (r: bool)
        ensures
            r == self.goes_on(),
    {
        *self == EventReturnCode::Continue
    }
}

/// An event carrying its data.
#[derive(Debug)]
pub struct Event<T>(pub T);

/// A scroll, in the direction the user moved.
#[derive(Clone, Copy, Debug, PartialEq, Eq, Structural)]
pub struct ScrollEvent {
    pub x: i32,
    pub y: i32,
    pub timestamp: u32,
}

impl ScrollEvent {
    /// A scroll event from a wheel reading; a flipped wheel reports the
    /// opposite direction.
    pub fn from_wheel(x: i32, y: i32, flipped: bool, timestamp: u32) -> (r: ScrollEvent)
        requires
            x != i32::MIN,
            y != i32::MIN,
        ensures
            r.x == if flipped { -x } else { x as int },
            r.y == if flipped { -y } else { y as int },
            r.timestamp == timestamp,
    {
        ScrollEvent { x: if flipped { -x } else { x }, y: if flipped { -y } else { y }, timestamp }
    }
}

/// The code a run of listeners ends with: the first that is not
/// `Continue`, or `Continue` when all go on.
pub open spec fn first_stop(codes: Seq<EventReturnCode>) -> EventReturnCode
    decreases codes.len(),
{
    if codes.len() == 0 {
        EventReturnCode::Continue
    } else if !codes[0].goes_on() {
        codes[0]
    } else {
        first_stop(codes.drop_first())
    }
}

proof fn lemma_first_stop_push(codes: Seq<EventReturnCode>, c: EventReturnCode)
    requires
        forall|k: int| 0 <= k < codes.len() ==> (#[trigger] codes[k]).goes_on(),
    ensures
        first_stop(codes.push(c)) == c,
    decreases codes.len(),
{
    if codes.len() > 0 {
        assert(codes.push(c).drop_first() =~= codes.drop_first().push(c));
        assert(codes.push(c)[0] == codes[0]);
        lemma_first_stop_push(codes.drop_first(), c);
    } else {
        assert(codes.push(c).drop_first() =~= Seq::<EventReturnCode>::empty());
        assert(codes.push(c)[0] == c);
        assert(first_stop(Seq::<EventReturnCode>::empty()) == EventReturnCode::Continue);
    }
}

/// Listeners of one kind of event, kept in the order they were added;
/// they are called in that order until one does not return `Continue`.
pub struct GenericEventReceiver<L> {
    listeners: Vec<L>,
}

impl<L> GenericEventReceiver<L> {
    pub closed spec fn spec_listeners(&self) -> Seq<L> {
        self.listeners@
    }

    pub fn new() -> (r: GenericEventReceiver<L>)
        ensures
            r.spec_listeners().len() == 0,
    {
        GenericEventReceiver { listeners: Vec::new() }
    }

    pub fn add_listener(&mut self, listener: L)
        ensures
            final(self).spec_listeners() == old(self).spec_listeners().push(listener),
    {
        self.listeners.push(listener);
    }

    pub fn len(&self) -> (r: usize)
        ensures
            r == self.spec_listeners().len(),
    {
        self.listeners.len()
    }

    /// Calls the listeners in order with the event and the window until one
    /// does not return `Continue`, and returns that code; `Continue` when
    /// every listener goes on. `codes` are what the listeners called
    /// returned.
    pub fn trigger<E, W>(&self, event: &E, window: &W) -> (r: EventReturnCode)
        where
            L: Fn(&E, &W) -> EventReturnCode,
        requires
            forall|i: int| 0 <= i < self.spec_listeners().len() ==> #[trigger] self.spec_listeners()[i].requires((event, window)),
        ensures
            exists|codes: Seq<EventReturnCode>|
                {
                    &&& codes.len() <= self.spec_listeners().len()
                    &&& forall|k: int| 0 <= k < codes.len() ==> #[trigger] self.spec_listeners()[k].ensures((event, window), codes[k])
                    &&& forall|k: int| 0 <= k < codes.len() - 1 ==> (#[trigger] codes[k]).goes_on()
                    &&& codes.len() < self.spec_listeners().len() ==> codes.len() > 0 && !codes.last().goes_on()
                    &&& r == first_stop(codes)
                },
    {
        let ghost mut codes: Seq<EventReturnCode> = Seq::empty();
        let mut i: usize = 0;
        let mut code = EventReturnCode::Continue;
        while i < self.listeners.len()
            invariant
                i <= self.listeners@.len(),
                codes.len() == i,
                forall|j: int| 0 <= j < self.spec_listeners().len() ==> #[trigger] self.spec_listeners()[j].requires((event, window)),
                forall|k: int| 0 <= k < codes.len() ==> #[trigger] self.spec_listeners()[k].ensures((event, window), codes[k]),
                forall|k: int| 0 <= k < codes.len() ==> (#[trigger] codes[k]).goes_on(),
                code == EventReturnCode::Continue,
                first_stop(codes) == EventReturnCode::Continue,
            decreases self.listeners@.len() - i,
        {
            assert(self.spec_listeners()[i as int].requires((event, window)));
            assert(self.listeners@[i as int] == self.spec_listeners()[i as int]);
            let c = (self.listeners[i])(event, window);
            proof {
                lemma_first_stop_push(codes, c);
                codes = codes.push(c);
            }
            if !c.keeps_going() {
                return c;
            }
            i += 1;
        }
        code
    }

    /// Removes every listener equal to `listener`; the others keep their
    /// order.
    pub fn remove_listener(&mut self, listener: &L)
        where
            L: PartialEq + Copy,
        ensures
            is_subsequence(final(self).spec_listeners(), old(self).spec_listeners()),
    {
        let mut kept: Vec<L> = Vec::new();
        let ghost mut picks: Seq<int> = Seq::empty();
        let mut i: usize = 0;
        while i < self.listeners.len()
            invariant
                i <= self.listeners@.len(),
                picks.len() == kept@.len(),
                forall|k: int| 0 <= k < picks.len() ==> 0 <= #[trigger] picks[k] < i && self.listeners@[picks[k]] == kept@[k],
                forall|k: int, l: int| 0 <= k < l < picks.len() ==> #[trigger] picks[k] < #[trigger] picks[l],
            decreases self.listeners@.len() - i,
        {
            if !(self.listeners[i] == *listener) {
                let l = self.listeners[i];
                kept.push(l);
                proof {
                    picks = picks.push(i as int);
                }
            }
            i += 1;
        }
        self.listeners = kept;
    }

    pub fn listener(&self, i: usize) -> (r: &L)
        requires
            i < self.spec_listeners().len(),
        ensures
            *r == self.spec_listeners()[i as int],
    {
        &self.listeners[i]
    }
}

} // verus!
