use vstd::prelude::*;

verus! {

/// An error of the library: a message meant for the user.
pub struct AppError {
    pub message: String,
}

impl View for AppError {
    type V = Seq<char>;

    open spec fn view(&self) -> Seq<char> {
        self.message@
    }
}

impl AppError {
    pub fn new(msg: &str) -> (r: AppError)
        ensures
            r@ == msg@,
    {
        AppError { message: String::from_str(msg) }
    }

    /// The message, as handed to the user.
    pub fn message(&self) -> (r: String)
        ensures
            r@ == self@,
    {
        self.message.clone()
    }
}

} // verus!
