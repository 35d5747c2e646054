use vstd::prelude::*;

verus! {

/// A failed computation carrying this message.
pub fn err<T>(msg: &str) -> (r: Result<T, String>)
    ensures
        r is Err,
        r->Err_0@ == msg@,
{
    Err(String::from_str(msg))
}

/// Conveniences on results: dropping the value, and swapping the error for
/// a fixed message.
pub trait ResultOps<T, E>: Sized {
    /// Whether the result succeeded.
    spec fn ok_p(&self) -> bool;

    /// The value it succeeded with.
    spec fn ok_of(&self) -> T;

    /// Drops the value, keeping only success or failure.
    fn clear(self) -> (r: Result<(), E>)
        ensures
            r is Ok <==> self.ok_p(),
    ;

    /// Replaces any error with the given message.
    fn serr(self, msg: &str) -> (r: Result<T, String>)
        ensures
            r is Ok <==> self.ok_p(),
            r is Ok ==> r->Ok_0 == self.ok_of(),
            r is Err ==> r->Err_0@ == msg@,
    ;
}

impl<T, E> ResultOps<T, E> for Result<T, E> {
    open spec fn ok_p(&self) -> bool {
        *self is Ok
    }

    open spec fn ok_of(&self) -> T {
        (*self)->Ok_0
    }

    fn clear(self) -> (r: Result<(), E>) {
        match self {
            Ok(_) => Ok(()),
            Err(e) => Err(e),
        }
    }

    fn serr(self, msg: &str) -> (r: Result<T, String>) {
        match self {
            Ok(v) => Ok(v),
            Err(_) => Err(String::from_str(msg)),
        }
    }
}

} // verus!
