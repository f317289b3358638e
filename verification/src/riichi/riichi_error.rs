use vstd::prelude::*;
use vstd::string::StringExecFns;

verus! {

/// An error we propagate in the module
#[derive(Debug)]
pub struct RiichiError {
    /// A numeric code
    pub code: u16,
    /// String message
    pub message: String,
}

impl RiichiError {
    /// Create a new RiichiError
    pub fn new(code: u16, message: &str) -> (e: RiichiError)
        ensures
            e.code == code,
            e.message@ == message@,
    {
        RiichiError { code, message: message.to_owned() }
    }

    /// The text `code : message`, which is how the error reads when displayed.
    pub fn to_string(&self) -> (s: String)
        ensures
            s@ == crate::riichi::text::decimal(self.code as nat) + seq![' ', ':', ' '] + self.message@,
    {
        let mut v: Vec<char> = Vec::new();
        crate::riichi::text::push_decimal(&mut v, self.code as u32);
        v.push(' ');
        v.push(':');
        v.push(' ');
        let mut s = crate::riichi::text::string_from_chars(&v);
        s.append(self.message.as_str());
        assert(s@ =~= crate::riichi::text::decimal(self.code as nat) + seq![' ', ':', ' '] + self.message@);
        s
    }
}

} // verus!
