//! The elements a session is holding.
//!
//! A platform names an element with a raw pointer or a COM interface. Neither
//! can travel to a script, and neither stays valid once the window it belongs
//! to closes. The script gets an opaque id instead, and this store is the only
//! place that turns one back into an element.
//!
//! The ids are per session and monotonic, so a stale id from a closed window is
//! rejected by name rather than dereferenced.
use vstd::prelude::*;
use crate::computer_script::ax::{AxError, AxFault};
use crate::text::{decimal, decimal_is_unique, number, same};

verus! {

/// Platform elements, held for as long as the session names them.
///
/// The type of an element is the platform's own; the store never looks inside it.
#[derive(Debug)]
pub struct HandleStore<T> {
    held: Vec<(String, T)>,
    next: u64,
}

/// The handle of the `n`th element.
pub open spec fn handle_text(n: nat) -> Seq<char> {
    "ax-"@ + decimal(n)
}

/// The element that the first entry from `from` on with the handle holds.
spec fn held_from<T>(held: Seq<(String, T)>, handle: Seq<char>, from: int) -> Option<T>
    decreases held.len() - from,
{
    if from < 0 || from >= held.len() {
        None
    } else if held[from].0@ == handle {
        Some(held[from].1)
    } else {
        held_from(held, handle, from + 1)
    }
}

proof fn held_from_none<T>(held: Seq<(String, T)>, handle: Seq<char>, from: int)
    requires
        0 <= from,
        forall|i: int| 0 <= i < held.len() ==> (#[trigger] held[i]).0@ != handle,
    ensures
        held_from(held, handle, from) is None,
    decreases held.len() - from,
{
    if from < held.len() {
        assert(held[from].0@ != handle);
        held_from_none(held, handle, from + 1);
    }
}

proof fn held_from_push<T>(held: Seq<(String, T)>, new: (String, T), handle: Seq<char>, from: int)
    requires
        0 <= from <= held.len(),
    ensures
        held_from(held.push(new), handle, from) == match held_from(held, handle, from) {
            Some(e) => Some(e),
            None => if new.0@ == handle {
                Some(new.1)
            } else {
                None
            },
        },
    decreases held.len() - from,
{
    let after = held.push(new);
    if from < held.len() {
        assert(after[from] == held[from]);
        if held[from].0@ != handle {
            held_from_push(held, new, handle, from + 1);
        }
    } else {
        assert(after[from] == new);
        assert(held_from(after, handle, from + 1) is None);
    }
}

impl<T> HandleStore<T> {
    /// The element a handle names.
    pub closed spec fn element(&self, handle: Seq<char>) -> Option<T> {
        held_from(self.held@, handle, 0)
    }

    /// How many elements have ever been named.
    pub closed spec fn issued(&self) -> nat {
        (self.next - 1) as nat
    }

    /// Every handle the store holds is one that it issued.
    pub closed spec fn wf(&self) -> bool {
        &&& self.next >= 1
        &&& forall|i: int|
            0 <= i < self.held@.len() ==> exists|n: nat|
                1 <= n < self.next && (#[trigger] self.held@[i]).0@ == #[trigger] handle_text(n)
    }

    /// A store that holds nothing.
    pub fn new() -> (store: HandleStore<T>)
        ensures
            store.wf(),
            store.issued() == 0,
            forall|handle: Seq<char>| #[trigger] store.element(handle) is None,
    {
        HandleStore { held: Vec::new(), next: 1 }
    }

    /// Hold `element` and name it. The name is one that was never given before.
    pub fn hold(&mut self, element: T) -> (handle: String)
        requires
            old(self).wf(),
            old(self).issued() < u64::MAX - 1,
        ensures
            final(self).wf(),
            final(self).issued() == old(self).issued() + 1,
            handle@ == handle_text(final(self).issued()),
            old(self).element(handle@) is None,
            final(self).element(handle@) == Some(element),
            forall|other: Seq<char>|
                other != handle@ ==> #[trigger] final(self).element(other) == old(self).element(
                    other,
                ),
    {
        let id: u64 = self.next;
        let mut handle = "ax-".to_string();
        let digits = number(id);
        handle.push_str(&digits);
        let ghost before = self.held@;
        proof {
            assert forall|i: int| 0 <= i < before.len() implies (#[trigger] before[i]).0@
                != handle@ by {
                let n = choose|n: nat|
                    1 <= n < id && (#[trigger] self.held@[i]).0@ == #[trigger] handle_text(n);
                if handle_text(n) == handle_text(id as nat) {
                    assert(handle_text(n).skip("ax-"@.len() as int) =~= decimal(n));
                    assert(handle_text(id as nat).skip("ax-"@.len() as int) =~= decimal(id as nat));
                    decimal_is_unique(n, id as nat);
                }
            }
            held_from_none(before, handle@, 0);
        }
        self.next = id + 1;
        self.held.push((handle.clone(), element));
        proof {
            let new = self.held@.last();
            assert(self.held@ =~= before.push(new));
            assert forall|other: Seq<char>| #[trigger] self.element(other) == (if other == handle@ {
                Some(element)
            } else {
                held_from(before, other, 0)
            }) by {
                held_from_push(before, new, other, 0);
            }
            assert forall|i: int| 0 <= i < self.held@.len() implies exists|n: nat|
                1 <= n < self.next && (#[trigger] self.held@[i]).0@ == #[trigger] handle_text(
                    n,
                ) by {
                if i < before.len() {
                    assert(self.held@[i] == before[i]);
                    let n = choose|n: nat|
                        1 <= n < id && (#[trigger] before[i]).0@ == #[trigger] handle_text(n);
                    assert(1 <= n < self.next && self.held@[i].0@ == handle_text(n));
                } else {
                    assert(self.held@[i].0@ == handle_text(id as nat));
                }
            }
        }
        handle
    }

    /// Do something with the element `handle` names.
    ///
    /// The element never leaves the store: a backend reads it and returns what it
    /// read, so nothing above this module can keep a pointer past the moment the
    /// store drops it.
    pub fn with<R>(&self, handle: &str, act: impl FnOnce(&T) -> R) -> (r: Result<R, AxError>)
        requires
            self.element(handle@) matches Some(e) ==> call_requires(act, (&e,)),
        ensures
            match self.element(handle@) {
                Some(e) => r matches Ok(out) && call_ensures(act, (&e,), out),
                None => r matches Err(error) && error@ == AxFault::UnknownHandle(handle@),
            },
    {
        let mut i: usize = 0;
        while i < self.held.len()
            invariant
                i <= self.held@.len(),
                held_from(self.held@, handle@, 0) == held_from(self.held@, handle@, i as int),
                self.element(handle@) matches Some(e) ==> call_requires(act, (&e,)),
            decreases self.held.len() - i,
        {
            if same(&self.held[i].0, handle) {
                return Ok(act(&self.held[i].1));
            }
            i += 1;
        }
        Err(AxError::UnknownHandle(handle.to_string()))
    }

    /// Let go of everything. The names given so far stay spent.
    pub fn clear(&mut self)
        requires
            old(self).wf(),
        ensures
            final(self).wf(),
            final(self).issued() == old(self).issued(),
            forall|handle: Seq<char>| #[trigger] final(self).element(handle) is None,
    {
        self.held.clear();
    }
}

/// Two elements never share a handle: the handles of different turns differ.
pub proof fn handles_differ(a: nat, b: nat)
    requires
        a != b,
    ensures
        handle_text(a) != handle_text(b),
{
    if handle_text(a) == handle_text(b) {
        assert(handle_text(a).skip("ax-"@.len() as int) =~= decimal(a));
        assert(handle_text(b).skip("ax-"@.len() as int) =~= decimal(b));
        decimal_is_unique(a, b);
    }
}

} // verus!
