//! Telling those who asked that the language has changed.

use crate::error::LinguaError;
use crate::lingua::Lingua;
use vstd::prelude::*;

verus! {

/// The callbacks to call after a change of language, in the order in which
/// they were registered. None is ever taken out.
pub struct Listeners<F> {
    callbacks: Vec<F>,
}

impl<F: Fn(&str)> Listeners<F> {
    /// The callbacks, in the order of their registration.
    pub closed spec fn view(&self) -> Seq<F> {
        self.callbacks@
    }

    /// Whether every callback may be called with `lang_code`.
    pub open spec fn accept(&self, lang_code: &str) -> bool {
        forall|i: int| 0 <= i < self.view().len() ==> call_requires(self.view()[i], (lang_code,))
    }

    /// Whether the first `n` callbacks have run with `lang_code`.
    pub open spec fn have_run(&self, lang_code: &str, n: int) -> bool {
        forall|i: int| 0 <= i < n ==> call_ensures(self.view()[i], (lang_code,), ())
    }

    /// No callbacks.
    pub fn new() -> (r: Self)
        ensures
            r.view() == Seq::<F>::empty(),
    {
        Listeners { callbacks: Vec::new() }
    }

    /// Registers `callback` behind those that are registered.
    pub fn register(&mut self, callback: F)
        ensures
            final(self).view() == old(self).view().push(callback),
    {
        self.callbacks.push(callback);
    }

    /// How many callbacks are registered.
    pub fn len(&self) -> (n: usize)
        ensures
            n == self.view().len(),
    {
        self.callbacks.len()
    }

    /// Calls every callback with `lang_code`, in the order of registration.
    pub fn notify(&self, lang_code: &str)
        requires
            self.accept(lang_code),
        ensures
            self.have_run(lang_code, self.view().len() as int),
    {
        let mut i: usize = 0;
        while i < self.callbacks.len()
            invariant
                i <= self.callbacks.len(),
                self.accept(lang_code),
                self.have_run(lang_code, i as int),
            decreases self.callbacks.len() - i,
        {
            assert(call_requires(self.view()[i as int], (lang_code,)));
            (self.callbacks[i])(lang_code);
            i += 1;
        }
    }
}

impl Lingua {
    /// Registers `callback` with `listeners`, to be called after every later
    /// change of language that is made with them.
    pub fn on_language_change<F: Fn(&str)>(listeners: &mut Listeners<F>, callback: F)
        ensures
            final(listeners).view() == old(listeners).view().push(callback),
    {
        listeners.register(callback);
    }

    /// Selects `lang_code`, which must be loaded, and then calls every
    /// callback of `listeners` with it, also where it was selected before.
    /// Where `lang_code` is not loaded, nothing is selected and none is called.
    pub fn switch_language<F: Fn(&str)>(&mut self, lang_code: &str, listeners: &Listeners<F>) -> (r:
        Result<bool, LinguaError>)
        requires
            listeners.accept(lang_code),
        ensures
            final(self)@ == old(self)@.selecting(lang_code@),
            match r {
                Ok(done) => done && old(self)@.has_language(lang_code@) && listeners.have_run(
                    lang_code,
                    listeners.view().len() as int,
                ),
                Err(LinguaError::LanguageNotAvailable(code)) => !old(self)@.has_language(
                    lang_code@,
                ) && code@ == lang_code@,
                Err(_) => false,
            },
    {
        match self.set_language(lang_code) {
            Ok(done) => {
                listeners.notify(lang_code);
                Ok(done)
            },
            Err(error) => Err(error),
        }
    }
}

} // verus!
