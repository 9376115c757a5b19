use vstd::prelude::*;

verus! {

/// One key binding: the key's code and a short description of what
/// it does, as shown in the on-screen key map.
pub struct Key<T> {
    pub code: T,
    pub short: String,
}

impl<T> Key<T> {
    pub fn new(code: T, short: String) -> (r: Key<T>)
        ensures
            r.code == code,
            r.short == short,
    {
        Key { code, short }
    }
}

/// A registry of key bindings, kept in registration order for display.
pub trait KeyMap<T>: Sized {
    /// The bindings registered so far, oldest first.
    spec fn bindings(&self) -> Seq<Key<T>>;

    /// Append one binding at the end.
    fn register(&mut self, key: Key<T>)
        ensures
            final(self).bindings() == old(self).bindings().push(key),
    ;

    /// The registered bindings, in order, for a renderer to walk.
    fn make_iter(&self) -> (r: &[Key<T>])
        ensures
            r@ == self.bindings(),
    ;
}

impl<T> KeyMap<T> for Vec<Key<T>> {
    open spec fn bindings(&self) -> Seq<Key<T>> {
        self@
    }

    fn register(&mut self, key: Key<T>) {
        self.push(key);
    }

    fn make_iter(&self) -> (r: &[Key<T>]) {
        self.as_slice()
    }
}

} // verus!
