//! A scoped native handle: one raw handle together with the function that
//! releases it.
use std::rc::Rc;
use vstd::prelude::*;

verus! {

/// Owns a raw handle and its release function. The handle is released by
/// `release`, which consumes the wrapper, so the release function runs at most
/// once per wrapper.
pub struct GenericFreeWrapper<T, F: Fn(T) -> i32> {
    thing: T,
    free: F,
}

impl<T, F: Fn(T) -> i32> GenericFreeWrapper<T, F> {
    /// The raw handle owned by the wrapper.
    pub closed spec fn thing_spec(&self) -> T {
        self.thing
    }

    /// The function that releases the handle.
    pub closed spec fn free_spec(&self) -> F {
        self.free
    }

    pub fn new(thing: T, free: F) -> (r: Self)
        ensures
            r.thing_spec() == thing,
            r.free_spec() == free,
    {
        Self { thing, free }
    }

    /// Non-owning access to the raw handle.
    pub fn ptr(&self) -> (r: T)
        where T: Copy
        ensures
            r == self.thing_spec(),
    {
        self.thing
    }

    /// Runs the release function on the handle, once, and gives back its status.
    pub fn release(self) -> (r: i32)
        requires
            self.free_spec().requires((self.thing_spec(),)),
        ensures
            self.free_spec().ensures((self.thing_spec(),), r),
    {
        (self.free)(self.thing)
    }
}

/// Releases a shared handle when this is its last reference: the release
/// function runs, and its status is returned, only if no other reference is
/// left; otherwise the reference is just dropped and `None` returned.
pub fn release_shared<T, F: Fn(T) -> i32>(shared: Rc<GenericFreeWrapper<T, F>>) -> (r: Option<i32>)
    requires
        shared.free_spec().requires((shared.thing_spec(),)),
    ensures
        r matches Some(status) ==> shared.free_spec().ensures((shared.thing_spec(),), status),
{
    match Rc::into_inner(shared) {
        Some(w) => Some(w.release()),
        None => None,
    }
}

/// Owns a raw handle whose release function also needs the display. It holds
/// a shared reference to the display's wrapper, so the display stays open
/// until this handle has been released, whatever order the owners drop in.
pub struct GenericXftWrapper<T, D, G: Fn(D) -> i32, F: Fn(D, T)> {
    thing: T,
    dpy: Rc<GenericFreeWrapper<D, G>>,
    free: F,
}

impl<T, D, G: Fn(D) -> i32, F: Fn(D, T)> GenericXftWrapper<T, D, G, F> {
    pub closed spec fn thing_spec(&self) -> T {
        self.thing
    }

    /// The display wrapper this handle keeps alive.
    pub closed spec fn dpy_spec(&self) -> GenericFreeWrapper<D, G> {
        *self.dpy
    }

    pub closed spec fn free_spec(&self) -> F {
        self.free
    }

    pub fn new(thing: T, dpy: Rc<GenericFreeWrapper<D, G>>, free: F) -> (r: Self)
        ensures
            r.thing_spec() == thing,
            r.dpy_spec() == *dpy,
            r.free_spec() == free,
    {
        Self { thing, dpy, free }
    }

    /// Non-owning access to the raw handle.
    pub fn ptr(&self) -> (r: T)
        where T: Copy
        ensures
            r == self.thing_spec(),
    {
        self.thing
    }

    /// Runs the release function once, on the display and the handle, and
    /// only then hands back the reference to the display.
    pub fn release(self) -> (r: Rc<GenericFreeWrapper<D, G>>)
        where D: Copy
        requires
            self.free_spec().requires((self.dpy_spec().thing_spec(), self.thing_spec())),
        ensures
            self.free_spec().ensures((self.dpy_spec().thing_spec(), self.thing_spec()), ()),
            *r == self.dpy_spec(),
    {
        let d = self.dpy.ptr();
        (self.free)(d, self.thing);
        self.dpy
    }
}

} // verus!
