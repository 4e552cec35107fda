use std::borrow::Cow;
use vstd::prelude::*;

verus! {

/// A string that is either borrowed from the text it was decoded from or owned.
#[derive(Debug)]
pub struct StrCow<'a>(pub Cow<'a, str>);

impl<'a> View for StrCow<'a> {
    type V = Seq<char>;

    open spec fn view(&self) -> Seq<char> {
        self.0@
    }
}

impl<'a> StrCow<'a> {
    pub fn into_cow(self) -> (r: Cow<'a, str>)
        ensures
            r == self.0,
    {
        self.0
    }

    pub fn get_ref(&self) -> (r: &Cow<'a, str>)
        ensures
            *r == self.0,
    {
        &self.0
    }

    pub fn get_mut(&mut self) -> (r: &mut Cow<'a, str>)
        ensures
            *r == old(self).0,
            final(self).0 == *final(r),
    {
        &mut self.0
    }

    pub fn as_str(&self) -> (r: &str)
        ensures
            r@ == self@,
    {
        match &self.0 {
            Cow::Borrowed(b) => b,
            Cow::Owned(o) => o.as_str(),
        }
    }

    pub fn from_str(s: &'a str) -> (r: Self)
        ensures
            r.0 == Cow::<'a, str>::Borrowed(s),
            r@ == s@,
    {
        StrCow(Cow::Borrowed(s))
    }

    pub fn from_string(s: String) -> (r: Self)
        ensures
            r.0 == Cow::<'a, str>::Owned(s),
            r@ == s@,
    {
        StrCow(Cow::Owned(s))
    }

    pub fn from_cow(cow: Cow<'a, str>) -> (r: Self)
        ensures
            r.0 == cow,
    {
        StrCow(cow)
    }
}

} // verus!
