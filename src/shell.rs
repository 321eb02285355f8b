//! Values exchanged between the platform shell and the application.
use vstd::prelude::*;

verus! {

/// Session lock events.
///
/// A lock surface is named by its protocol object id, a window by its id.
#[derive(Debug, Clone, Copy, PartialEq, Eq, Structural)]
pub enum SessionLockEvent {
    /// The compositor has activated the lock.
    Locked,
    /// The lock was rejected or cancelled by the compositor.
    Finished,
    /// The session lock protocol is not supported.
    NotSupported,
    /// A session lock surface gained focus.
    Focused(u32, u64),
    /// A session lock surface lost focus.
    Unfocused(u32, u64),
    /// The server has processed the unlock.
    Unlocked,
}

/// The optional features of the shell.
#[derive(Debug, Default, Clone, Copy)]
pub struct Features {}

/// A key code that could not be converted.
#[derive(Debug, Clone, Copy, PartialEq, Eq, Structural)]
pub struct KeyCodeError(pub u32);

/// The data of a pending activation token request, with the callback that
/// turns the token into a message.
pub struct IcedRequestData<D, F> {
    data: D,
    message: Option<F>,
}

impl<D, F> IcedRequestData<D, F> {
    /// Creates request data whose callback has not been used yet.
    pub fn new(data: D, message: F) -> (r: Self)
        ensures
            r.data() == data,
            r.pending() == Some(message),
    {
        IcedRequestData { data, message: Some(message) }
    }

    pub closed spec fn data(&self) -> D {
        self.data
    }

    /// The callback, while no token has been delivered.
    pub closed spec fn pending(&self) -> Option<F> {
        self.message
    }

    /// The request's data.
    pub fn request(&self) -> (r: &D)
        ensures
            *r == self.data(),
    {
        &self.data
    }

    /// Takes the callback for a token that has arrived. Only the first token
    /// is delivered: afterwards there is no callback left.
    pub fn take_message(&mut self) -> (r: Option<F>)
        ensures
            r == old(self).pending(),
            final(self).pending() is None,
            final(self).data() == old(self).data(),
    {
        let mut m = None;
        std::mem::swap(&mut m, &mut self.message);
        m
    }
}

/// An event loop proxy: a handle through which messages reach the event loop.
#[derive(Debug, Clone)]
pub struct Proxy<P> {
    raw: P,
}

impl<P> Proxy<P> {
    /// Creates a new [`Proxy`] from the event loop's own proxy.
    pub fn new(raw: P) -> (r: Self)
        ensures
            r.raw() == raw,
    {
        Proxy { raw }
    }

    pub closed spec fn raw(&self) -> P {
        self.raw
    }

    /// The event loop's own proxy.
    pub fn inner(&self) -> (r: &P)
        ensures
            *r == self.raw(),
    {
        &self.raw
    }
}

/// A widget that keeps a value of its own, from which `maker` builds its content.
pub struct LocalState<T, M> {
    state: T,
    maker: M,
}

impl<T, M> LocalState<T, M> {
    /// Creates the widget with `default` as its initial value.
    pub fn new(default: T, content: M) -> (r: Self)
        ensures
            r.value() == default,
            r.maker() == content,
    {
        LocalState { maker: content, state: default }
    }

    pub closed spec fn value(&self) -> T {
        self.state
    }

    pub closed spec fn maker(&self) -> M {
        self.maker
    }

    /// The widget's value.
    pub fn state(&self) -> (r: &T)
        ensures
            *r == self.value(),
    {
        &self.state
    }
}

} // verus!
