use vstd::prelude::*;

verus! {

/// Turns an empty value into `None`.
pub trait DropEmpty: Sized {
    fn drop_empty(self) -> Option<Self>;
}

impl DropEmpty for String {
    fn drop_empty(self) -> (r: Option<String>)
        ensures
            self@.len() == 0 ==> r is None,
            self@.len() > 0 ==> r == Some(self),
    {
        if self.as_str().is_empty() {
            None
        } else {
            Some(self)
        }
    }
}

} // verus!
