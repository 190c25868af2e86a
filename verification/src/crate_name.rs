//! Names of crates.

use vstd::prelude::*;
use crate::sets::Item;
use crate::text::{chars_of, is_alphanumeric, is_alphanumeric_exec, is_digit, is_digit_exec, str_eq, string_of};

verus! {

/// Why a text is no crate name.
#[derive(Debug, Clone, Copy, PartialEq, Eq, Structural)]
pub enum CrateNameError {
    /// The name is empty.
    Empty,
    /// The name holds a character other than an ASCII letter, a digit, `_`
    /// and `-`.
    InvalidCharacters,
    /// The name starts with a digit.
    StartsWithDigit,
}

impl CrateNameError {
    /// A sentence for the error.
    pub fn message(&self) -> (r: &'static str)
        ensures
            r@ == match *self {
                CrateNameError::Empty => "Crate name cannot be empty"@,
                CrateNameError::InvalidCharacters => "Invalid crate name: contains invalid characters"@,
                CrateNameError::StartsWithDigit => "Invalid crate name: cannot start with a digit"@,
            },
    {
        match self {
            CrateNameError::Empty => "Crate name cannot be empty",
            CrateNameError::InvalidCharacters => "Invalid crate name: contains invalid characters",
            CrateNameError::StartsWithDigit => "Invalid crate name: cannot start with a digit",
        }
    }
}

/// `name` with each `-` turned into `_`.
pub open spec fn normalized(name: Seq<char>) -> Seq<char> {
    name.map_values(
        |c: char|
            if c == '-' {
                '_'
            } else {
                c
            },
    )
}

/// Whether `c` may stand in a crate name.
pub open spec fn is_name_char(c: char) -> bool {
    is_alphanumeric(c) || c == '_'
}

/// Every character of `name` may stand in a crate name.
pub open spec fn all_name_chars(name: Seq<char>) -> bool {
    forall|i: int| 0 <= i < name.len() ==> is_name_char(#[trigger] name[i])
}

/// The crate name that `name` gives, or why it gives none.
pub open spec fn crate_name_of(name: Seq<char>) -> Result<Seq<char>, CrateNameError> {
    if name.len() == 0 {
        Err(CrateNameError::Empty)
    } else if !all_name_chars(normalized(name)) {
        Err(CrateNameError::InvalidCharacters)
    } else if is_digit(normalized(name)[0]) {
        Err(CrateNameError::StartsWithDigit)
    } else {
        Ok(normalized(name))
    }
}

/// Whether `name` is one of `alloc`, `core` and `std`.
pub open spec fn is_standard(name: Seq<char>) -> bool {
    name == "alloc"@ || name == "core"@ || name == "std"@
}

/// The name of a crate, always in `snake_case` (never `kebab-case`).
#[derive(Debug, PartialEq, Eq, Hash, PartialOrd, Ord)]
pub struct CrateName(String);

impl View for CrateName {
    type V = Seq<char>;

    closed spec fn view(&self) -> Seq<char> {
        self.0@
    }
}

impl Clone for CrateName {
    fn clone(&self) -> (r: Self)
        ensures
            r@ == self@,
    {
        CrateName(self.0.clone())
    }
}

impl Item for CrateName {
    fn same(&self, other: &Self) -> (r: bool) {
        self.0 == other.0
    }

    fn duplicate(&self) -> (r: Self) {
        self.clone()
    }
}

/// The view of the result of making a crate name.
pub open spec fn crate_name_view(r: Result<CrateName, CrateNameError>) -> Result<
    Seq<char>,
    CrateNameError,
> {
    match r {
        Ok(name) => Ok(name@),
        Err(e) => Err(e),
    }
}

impl CrateName {
    /// The crate name for `name`, with `-` read as `_`. A name is refused
    /// where it is empty, holds a character other than ASCII letters, digits
    /// and `_`, or starts with a digit.
    pub fn new(name: &str) -> (r: Result<Self, CrateNameError>)
        ensures
            crate_name_view(r) == crate_name_of(name@),
    {
        let chars = chars_of(name);
        if chars.len() == 0 {
            return Err(CrateNameError::Empty);
        }
        let ghost wanted = normalized(name@);
        let mut out: Vec<char> = Vec::new();
        let mut valid = true;
        let mut i: usize = 0;
        while i < chars.len()
            invariant
                i <= chars.len(),
                chars@ == name@,
                wanted == normalized(name@),
                out@ == wanted.take(i as int),
                valid == all_name_chars(wanted.take(i as int)),
            decreases chars.len() - i,
        {
            let c = if chars[i] == '-' {
                '_'
            } else {
                chars[i]
            };
            let ok = is_alphanumeric_exec(c) || c == '_';
            proof {
                let before = wanted.take(i as int);
                let now = wanted.take(i + 1);
                assert(now =~= before.push(c));
                if valid && ok {
                    assert forall|k: int| 0 <= k < now.len() implies is_name_char(
                        #[trigger] now[k],
                    ) by {
                        if k < i {
                            assert(now[k] == before[k]);
                        }
                    }
                } else if !ok {
                    assert(!is_name_char(now[i as int]));
                } else {
                    let k = choose|k: int| 0 <= k < before.len() && !is_name_char(before[k]);
                    assert(now[k] == before[k]);
                }
            }
            valid = valid && ok;
            out.push(c);
            i += 1;
        }
        assert(wanted.take(chars.len() as int) =~= wanted);
        if !valid {
            return Err(CrateNameError::InvalidCharacters);
        }
        if is_digit_exec(out[0]) {
            return Err(CrateNameError::StartsWithDigit);
        }
        Ok(CrateName(string_of(&out)))
    }

    /// The name as text.
    pub fn as_str(&self) -> (r: &str)
        ensures
            r@ == self@,
    {
        self.0.as_str()
    }

    /// The name as an owned string.
    pub fn to_string(&self) -> (r: String)
        ensures
            r@ == self@,
    {
        self.0.clone()
    }

    /// Whether this is one of `alloc`, `core` and `std`.
    pub fn is_standard_crate(&self) -> (r: bool)
        ensures
            r == is_standard(self@),
    {
        is_standard_crate(self.0.as_str())
    }
}

/// Whether `crate_name` is one of `alloc`, `core` and `std`.
pub fn is_standard_crate(crate_name: &str) -> (r: bool)
    ensures
        r == is_standard(crate_name@),
{
    str_eq(crate_name, "alloc") || str_eq(crate_name, "core") || str_eq(crate_name, "std")
}

impl std::ops::Deref for CrateName {
    type Target = String;

    fn deref(&self) -> (r: &String)
        ensures
            r@ == self@,
    {
        &self.0
    }
}

impl AsRef<str> for CrateName {
    fn as_ref(&self) -> (r: &str)
        ensures
            r@ == self@,
    {
        self.0.as_str()
    }
}

} // verus!
