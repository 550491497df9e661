use vstd::prelude::*;
use vstd::std_specs::convert::FromSpecImpl;

verus! {

/// A value that is either borrowed or owned.
#[derive(Debug)]
pub enum MaybeOwned<'s, BorrowedT: ?Sized, OwnedT> {
    /// A borrowed value.
    Borrowed(&'s BorrowedT),
    /// An owned value.
    Owned(OwnedT),
}

impl<'s, BorrowedT, OwnedT> From<&'s BorrowedT> for MaybeOwned<'s, BorrowedT, OwnedT> {
    fn from(value: &'s BorrowedT) -> (wrapped: Self) {
        MaybeOwned::Borrowed(value)
    }
}

impl<'s, BorrowedT, OwnedT> FromSpecImpl<&'s BorrowedT> for MaybeOwned<'s, BorrowedT, OwnedT> {
    open spec fn obeys_from_spec() -> bool {
        true
    }

    open spec fn from_spec(value: &'s BorrowedT) -> Self {
        MaybeOwned::Borrowed(value)
    }
}

/// A text that is either borrowed or owned.
pub type MaybeOwnedString<'s> = MaybeOwned<'s, str, String>;

/// The characters of a text that is either borrowed or owned.
pub open spec fn text_of(text: MaybeOwnedString) -> Seq<char> {
    match text {
        MaybeOwned::Borrowed(borrowed) => borrowed@,
        MaybeOwned::Owned(owned) => owned@,
    }
}

/// Borrows a text that is either borrowed or owned.
pub fn as_str<'a>(text: &'a MaybeOwnedString<'a>) -> (borrowed: &'a str)
    ensures
        borrowed@ == text_of(*text),
{
    match text {
        MaybeOwned::Borrowed(borrowed) => borrowed,
        MaybeOwned::Owned(owned) => owned.as_str(),
    }
}

} // verus!
