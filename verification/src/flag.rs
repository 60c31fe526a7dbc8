use vstd::prelude::*;

verus! {

/// A one-way switch that a chat thread raises when its side has quit.
pub struct Quit_flag {
    flag: bool,
}

impl View for Quit_flag {
    type V = bool;

    closed spec fn view(&self) -> bool {
        self.flag
    }
}

impl Quit_flag {
    /// A flag that is not raised.
    pub fn new() -> (res: Quit_flag)
        ensures
            !res@,
    {
        Quit_flag { flag: false }
    }

    /// Raises the flag.
    pub fn set(&mut self)
        ensures
            final(self)@,
    {
        self.flag = true;
    }

    /// Whether the flag has been raised.
    pub fn get(&mut self) -> (res: bool)
        ensures
            res == old(self)@,
            final(self)@ == old(self)@,
    {
        if self.flag {
            return true;
        } else {
            return false;
        }
    }
}

/// A call on a quit flag.
pub enum FlagCall {
    Raise,
    Read,
}

/// The flag after the calls `calls`, from `b`: `set` (`Raise`) raises it, `get` (`Read`)
/// leaves it as it is.
pub open spec fn flag_after(calls: Seq<FlagCall>, b: bool) -> bool
    decreases calls.len(),
{
    if calls.len() == 0 {
        b
    } else {
        flag_after(calls.drop_first(), b || calls[0] is Raise)
    }
}

/// Over any sequence of calls, a new flag is raised exactly when `set` was
/// called at least once, and a raised flag stays raised.
pub proof fn lemma_flag_over_calls(calls: Seq<FlagCall>)
    ensures
        flag_after(calls, false) == (exists|i: int| 0 <= i < calls.len() && calls[i] is Raise),
        flag_after(calls, true),
    decreases calls.len(),
{
    if calls.len() > 0 {
        let rest = calls.drop_first();
        lemma_flag_over_calls(rest);
        if calls[0] is Raise {
            assert(0 <= 0 < calls.len() && calls[0] is Raise);
        } else {
            if exists|i: int| 0 <= i < calls.len() && calls[i] is Raise {
                let i: int = choose|i: int| 0 <= i < calls.len() && calls[i] is Raise;
                assert(rest[i - 1] is Raise);
            }
            if exists|i: int| 0 <= i < rest.len() && rest[i] is Raise {
                let i: int = choose|i: int| 0 <= i < rest.len() && rest[i] is Raise;
                assert(calls[i + 1] is Raise);
            }
        }
    }
}

} // verus!
