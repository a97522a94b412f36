use vstd::prelude::*;
use vstd::string::to_string_from_display_ensures;
use std::fmt::{Debug, Display};
use crate::text::{decimal, digit_char, push_char, push_decimal};

verus! {

/// Shows the value it holds, or else what it was given to show in its place.
pub struct OrDisplay<T: Display, U>(Option<T>, U);

impl<T: Display, U: Display> OrDisplay<T, U> {
    /// The value, if there is one.
    pub closed spec fn value(&self) -> Option<T> {
        self.0
    }

    /// What is shown where there is no value.
    pub closed spec fn fallback(&self) -> U {
        self.1
    }

    /// The text of the value, or of the fallback where there is no value.
    pub fn to_string(&self) -> (text: String)
        ensures
            match self.value() {
                Some(t) => to_string_from_display_ensures::<T>(&t, text),
                None => to_string_from_display_ensures::<U>(&self.fallback(), text),
            },
    {
        match &self.0 {
            Some(t) => t.to_string(),
            None => self.1.to_string(),
        }
    }
}

/// Options that can be shown with something in the place of a missing value.
pub trait OrDisplayExt<T: Display> {
    /// Shows the value by reference, or `u` where there is none.
    fn or_display<U: Display>(&self, u: U) -> (shown: OrDisplay<&T, U>)
        ensures
            shown.fallback() == u,
            self.held() matches Some(t) ==> shown.value() == Some(&t),
            self.held() is None ==> shown.value() is None,
    ;

    /// Shows the value itself, or `u` where there is none.
    fn into_or_display<U: Display>(self, u: U) -> (shown: OrDisplay<T, U>) where Self: Sized
        ensures
            shown.fallback() == u,
            shown.value() == self.held(),
    ;

    /// The value that is shown, if there is one.
    spec fn held(&self) -> Option<T>;
}

impl<T: Display> OrDisplayExt<T> for Option<T> {
    open spec fn held(&self) -> Option<T> {
        *self
    }

    fn or_display<U: Display>(&self, u: U) -> (shown: OrDisplay<&T, U>) {
        OrDisplay(self.as_ref(), u)
    }

    fn into_or_display<U: Display>(self, u: U) -> (shown: OrDisplay<T, U>) {
        OrDisplay(self, u)
    }
}

/// Shows a value the way `Debug` formats it.
pub struct DisplayViaDebug<T: Debug>(pub T);

/// `format!` with `{:?}`: the text that the value's `Debug` gives of it.
/// Nothing is claimed of that text.
#[verifier::external_body]
fn debug_string<T: Debug>(value: &T) -> String {
    format!("{:?}", value)
}

impl<T: Debug> DisplayViaDebug<T> {
    /// The text that `Debug` gives of the value.
    pub fn to_string(&self) -> String {
        debug_string(&self.0)
    }
}

/// The three digits of a number below a thousand, zeros included.
pub open spec fn three_digits(n: nat) -> Seq<char> {
    seq![digit_char(n / 100), digit_char(n / 10 % 10), digit_char(n % 10)]
}

/// A number in groups of three digits parted by spaces: `1 234 567`.
pub open spec fn thousands(n: nat) -> Seq<char>
    decreases n,
{
    if n < 1000 {
        decimal(n)
    } else {
        thousands(n / 1000) + seq![' '] + three_digits(n % 1000)
    }
}

/// A number with a minus sign before it where it is negative, in groups of
/// three digits.
pub open spec fn signed_thousands(n: int) -> Seq<char> {
    if n < 0 {
        seq!['-'] + thousands((-n) as nat)
    } else {
        thousands(n as nat)
    }
}

fn digit(d: u64) -> (c: char)
    requires
        d < 10,
    ensures
        c == digit_char(d as nat),
{
    (48u8 + d as u8) as char
}

fn push_thousands(out: &mut String, n: u64)
    ensures
        final(out)@ == old(out)@ + thousands(n as nat),
    decreases n,
{
    if n < 1000 {
        push_decimal(out, n);
    } else {
        push_thousands(out, n / 1000);
        let low = n % 1000;
        push_char(out, ' ');
        push_char(out, digit(low / 100));
        push_char(out, digit(low / 10 % 10));
        push_char(out, digit(low % 10));
        assert(out@ =~= old(out)@ + thousands(n as nat));
    }
}

/// An unsigned number that is shown in groups of three digits.
#[derive(Clone, Copy, Debug, PartialEq, Eq)]
pub struct ThousandsUnsigned(pub u64);

impl ThousandsUnsigned {
    /// The number in groups of three digits parted by spaces.
    pub fn to_string(&self) -> (text: String)
        ensures
            text@ == thousands(self.0 as nat),
    {
        let mut text = String::new();
        push_thousands(&mut text, self.0);
        assert(text@ =~= thousands(self.0 as nat));
        text
    }
}

/// A signed number that is shown in groups of three digits.
#[derive(Clone, Copy, Debug, PartialEq, Eq)]
pub struct ThousandsSigned(pub i64);

impl ThousandsSigned {
    /// The number in groups of three digits parted by spaces, with a minus
    /// sign before it where it is negative.
    pub fn to_string(&self) -> (text: String)
        ensures
            text@ == signed_thousands(self.0 as int),
    {
        let mut text = String::new();
        if self.0 < 0 {
            push_char(&mut text, '-');
            let size: u64 = if self.0 == i64::MIN {
                9223372036854775808u64
            } else {
                (-self.0) as u64
            };
            push_thousands(&mut text, size);
        } else {
            push_thousands(&mut text, self.0 as u64);
        }
        assert(text@ =~= signed_thousands(self.0 as int));
        text
    }
}

} // verus!
