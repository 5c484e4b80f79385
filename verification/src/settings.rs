//! Optional and defaulted string settings used by the package builder.

use vstd::prelude::*;

verus! {

/// A setting that may be left unset.
#[derive(Debug)]
pub struct OptSetting {
    pub val: Option<String>,
}

impl OptSetting {
    /// The value of this setting.
    pub open spec fn view(&self) -> Option<Seq<char>> {
        match self.val {
            Some(s) => Some(s@),
            None => None,
        }
    }

    /// An unset setting.
    pub fn new() -> (r: Self)
        ensures
            r@ is None,
    {
        OptSetting { val: None }
    }

    /// The value of this setting, if set.
    pub fn get(&self) -> (r: Option<&str>)
        ensures
            r is Some <==> self@ is Some,
            r is Some ==> r->0@ == self@->0,
    {
        match &self.val {
            Some(s) => Some(s.as_str()),
            None => None,
        }
    }

    /// Whether this setting holds a value.
    pub fn is_set(&self) -> (r: bool)
        ensures
            r == (self@ is Some),
    {
        self.val.is_some()
    }

    /// Replaces this setting with the given value.
    pub fn set(&mut self, val: String)
        ensures
            final(self)@ == Some(val@),
    {
        self.val = Some(val);
    }
}

/// A setting that falls back to a fixed default until overridden.
#[derive(Debug)]
pub enum Setting {
    Default(&'static str),
    Override(String),
}

impl Setting {
    /// The value this setting currently holds.
    pub open spec fn view(&self) -> Seq<char> {
        match self {
            Setting::Default(s) => s@,
            Setting::Override(s) => s@,
        }
    }

    /// A setting holding its default value.
    pub fn dft(dft: &'static str) -> (r: Self)
        ensures
            r@ == dft@,
    {
        Setting::Default(dft)
    }

    /// Overrides this setting with the given value.
    pub fn set(&mut self, val: String)
        ensures
            final(self)@ == val@,
    {
        *self = Setting::Override(val);
    }

    /// The value this setting currently holds.
    pub fn get(&self) -> (r: &str)
        ensures
            r@ == self@,
    {
        match self {
            Setting::Default(s) => s,
            Setting::Override(s) => s.as_str(),
        }
    }
}

} // verus!
