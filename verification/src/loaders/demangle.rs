//! Readable forms of mangled symbol names.
use vstd::prelude::*;

verus! {

/// The readable form that `cpp_demangle` gives for a mangled name with its
/// default options, or nothing where it does not take the name for a
/// mangled one.
pub uninterp spec fn demangled(name: Seq<char>) -> Option<Seq<char>>;

/// Calls `cpp_demangle::Symbol::new` on the name and, where that accepts it,
/// `Symbol::demangle` with the default options. The result is what these two
/// give for the name: the readable form, or nothing where either refuses.
#[verifier::external_body]
pub(crate) fn demangle(name: &str) -> (r: Option<String>)
    ensures
        match r {
            Some(text) => demangled(name@) == Some(text@),
            None => demangled(name@) is None,
        },
{
    cpp_demangle::Symbol::new(name).ok().and_then(|s| s.demangle(&Default::default()).ok())
}

/// The name under which a symbol is recorded: its readable form where the
/// demangler gave one, the name as it is otherwise.
pub open spec fn readable_name(raw: Seq<char>, readable: Option<Seq<char>>) -> Seq<char> {
    match readable {
        Some(text) => text,
        None => raw,
    }
}

/// The name under which a symbol is recorded, given what the demangler made
/// of it.
pub fn choose_name(raw: &str, readable: Option<String>) -> (name: String)
    ensures
        name@ == readable_name(
            raw@,
            match readable {
                Some(text) => Some(text@),
                None => None,
            },
        ),
{
    match readable {
        Some(text) => text,
        None => String::from_str(raw),
    }
}

/// The name under which the symbol `raw` is recorded.
pub fn display_form(raw: &str) -> (name: String)
    ensures
        name@ == readable_name(raw@, demangled(raw@)),
{
    let readable = demangle(raw);
    choose_name(raw, readable)
}

} // verus!
