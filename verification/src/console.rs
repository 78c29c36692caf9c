//! Line editing over single-character terminal input: characters accumulate
//! in a pending line, backspace retracts one, and a line feed hands the
//! finished line over. The echoing itself stays with the terminal code.
use vstd::prelude::*;

verus! {

/// Relies on `String::push`: appends the character to the end.
pub assume_specification[ String::push ](s: &mut String, ch: char)
    ensures
        final(s)@ == old(s)@.push(ch),
;

/// Relies on `String::pop`: removes and returns the last character, or
/// nothing from an empty string.
pub assume_specification[ String::pop ](s: &mut String) -> (r: Option<char>)
    ensures
        match r {
            Some(c) => old(s)@.len() > 0 && c == old(s)@.last() && final(s)@ == old(s)@.drop_last(),
            None => old(s)@.len() == 0 && final(s)@ == old(s)@,
        },
;

/// The backspace control character.
pub open spec fn backspace() -> char {
    '\u{8}'
}

/// The line being typed at the console, not yet submitted.
pub struct ConsoleBuf {
    read_bytes: String,
}

impl View for ConsoleBuf {
    type V = Seq<char>;

    closed spec fn view(&self) -> Seq<char> {
        self.read_bytes@
    }
}

impl ConsoleBuf {
    pub fn new() -> (c: Self)
        ensures
            c@ == Seq::<char>::empty(),
    {
        ConsoleBuf { read_bytes: String::new() }
    }

    /// The pending line, for the terminal code to re-echo.
    pub fn pending(&self) -> (r: &String)
        ensures
            r@ == self@,
    {
        &self.read_bytes
    }

    /// Feed one typed character: a line feed submits and clears the pending
    /// line, a backspace retracts the last pending character, anything else
    /// joins the pending line.
    pub fn handle_input(&mut self, ch: char) -> (r: Option<String>)
        ensures
            ch == '\n' ==> match r {
                Some(line) => line@ == old(self)@ && final(self)@ == Seq::<char>::empty(),
                None => false,
            },
            ch == backspace() ==> r is None && final(self)@ == (if old(self)@.len() > 0 {
                old(self)@.drop_last()
            } else {
                old(self)@
            }),
            ch != '\n' && ch != backspace() ==> r is None && final(self)@ == old(self)@.push(ch),
    {
        if ch == '\n' {
            let line = self.read_bytes.clone();
            self.read_bytes = String::new();
            return Some(line);
        }
        if ch == '\u{8}' {
            let _ = self.read_bytes.pop();
            return None;
        }
        self.read_bytes.push(ch);
        None
    }
}

} // verus!
