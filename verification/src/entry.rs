//! The entry of an application: a function that puts it together, and the functions that start it on
//! each platform.

use crate::text::{chars_of, has_word_at, starts_at};
use vstd::prelude::*;

verus! {

/// A function as it is declared: its name, the number of its parameters, and whether it is `async`.
#[derive(Debug, PartialEq, Eq)]
pub struct Factory {
    pub name: String,
    pub parameters: usize,
    pub is_async: bool,
}

impl Factory {
    /// Name, number of parameters, and whether it is `async`.
    pub open spec fn declared(&self) -> (Seq<char>, nat, bool) {
        (self.name@, self.parameters as nat, self.is_async)
    }
}

/// The function as it is declared, or what was said against it.
pub open spec fn declared_by(factory: Result<Factory, String>) -> Result<(Seq<char>, nat, bool), Seq<char>> {
    match factory {
        Ok(factory) => Ok(factory.declared()),
        Err(message) => Err(message@),
    }
}

/// What `syn` makes of a source text that should be one function: name, number of parameters, and
/// whether it is `async`; or, if it is not a function, the message of its error.
pub uninterp spec fn function_source(source: Seq<char>) -> Result<(Seq<char>, nat, bool), Seq<char>>;

/// `syn::parse_str` for `syn::ItemFn`: parses a function. The contract claims that whether it is one,
/// its name, number of parameters and `async`, and otherwise the message of the error, as
/// `syn::Error::to_string` gives it, depend on the text alone. Where in the text the error stands is not
/// handed on.
#[verifier::external_body]
fn read_function(source: &str) -> (factory: Result<Factory, String>)
    ensures
        declared_by(factory) == function_source(source@),
{
    match syn::parse_str::<syn::ItemFn>(source) {
        Ok(function) => Ok(
            Factory {
                name: function.sig.ident.to_string(),
                parameters: function.sig.inputs.len(),
                is_async: function.sig.asyncness.is_some(),
            },
        ),
        Err(error) => Err(error.to_string()),
    }
}

/// Why a function cannot be an entry.
#[derive(Debug, PartialEq, Eq)]
pub enum EntryError {
    /// It is not a function: what the parser says of it.
    Syntax(String),
    /// It takes parameters.
    Parameters,
    /// It is `async`.
    Async,
    /// Its name begins like those of generated items.
    ReservedName,
}

impl EntryError {
    /// The error as a line of text.
    pub open spec fn shown(&self) -> Seq<char> {
        match *self {
            EntryError::Syntax(message) => message@,
            EntryError::Parameters => "入口宏标记的函数不能有参数：它是**工厂函数**，值交给运行时"@,
            EntryError::Async => "入口宏标记的函数不能是 async：运行时自己拥有等待权"@,
            EntryError::ReservedName => "`__lxlake` 是入口宏的内部前缀，函数名不能用它开头"@,
        }
    }

    /// The error as a line of text.
    pub fn display(&self) -> (line: String)
        ensures
            line@ == self.shown(),
    {
        match self {
            EntryError::Syntax(message) => message.as_str().to_owned(),
            EntryError::Parameters => {
                "入口宏标记的函数不能有参数：它是**工厂函数**，值交给运行时".to_owned()
            },
            EntryError::Async => "入口宏标记的函数不能是 async：运行时自己拥有等待权".to_owned(),
            EntryError::ReservedName => "`__lxlake` 是入口宏的内部前缀，函数名不能用它开头".to_owned(),
        }
    }
}

/// What is wrong with a function as an entry: the first of these that holds.
pub open spec fn objection(declared: (Seq<char>, nat, bool)) -> Option<EntryError> {
    if declared.1 > 0 {
        Some(EntryError::Parameters)
    } else if declared.2 {
        Some(EntryError::Async)
    } else if starts_at(declared.0, 0, "__lxlake"@) {
        Some(EntryError::ReservedName)
    } else {
        None
    }
}

/// Whether a function can be an entry.
pub fn validate(factory: &Factory) -> (result: Result<(), EntryError>)
    ensures
        match objection(factory.declared()) {
            Some(error) => result == Err::<(), EntryError>(error),
            None => result is Ok,
        },
{
    if factory.parameters > 0 {
        return Err(EntryError::Parameters);
    }
    if factory.is_async {
        return Err(EntryError::Async);
    }
    let name = chars_of(factory.name.as_str());
    let reserved = chars_of("__lxlake");
    if has_word_at(name.as_slice(), 0, reserved.as_slice()) {
        return Err(EntryError::ReservedName);
    }
    Ok(())
}

/// What is made of a function that was read, or of the message if there is none.
pub open spec fn is_entry(
    read: Result<(Seq<char>, nat, bool), Seq<char>>,
    result: Result<Factory, EntryError>,
) -> bool {
    match read {
        Err(said) => result matches Err(EntryError::Syntax(message)) && message@ == said,
        Ok(declared) => match objection(declared) {
            Some(error) => result == Err::<Factory, EntryError>(error),
            None => result matches Ok(factory) && factory.declared() == declared,
        },
    }
}

/// What is made of a function that was read, or of the message if there is none.
pub fn accept(read: Result<Factory, String>) -> (result: Result<Factory, EntryError>)
    ensures
        is_entry(declared_by(read), result),
{
    match read {
        Ok(factory) => match validate(&factory) {
            Ok(_) => Ok(factory),
            Err(error) => Err(error),
        },
        Err(message) => Err(EntryError::Syntax(message)),
    }
}

/// The entry in a source text.
pub fn entry_of(source: &str) -> (result: Result<Factory, EntryError>)
    ensures
        is_entry(function_source(source@), result),
{
    accept(read_function(source))
}

/// What an entry expands to besides itself.
#[derive(Debug, Clone, Copy, PartialEq, Eq, Structural)]
pub struct Expansion {
    /// The function may stand unused.
    pub allow_unused: bool,
    /// A function that starts it on a desktop.
    pub run: bool,
    /// A function that starts it on Android.
    pub android_main: bool,
}

/// What an entry for a desktop, for mobile devices, or for both expands to. One for mobile devices
/// alone stands unused on a desktop.
pub fn expansion(desktop: bool, mobile: bool) -> (expansion: Expansion)
    ensures
        expansion == (Expansion {
            allow_unused: mobile && !desktop,
            run: desktop,
            android_main: mobile,
        }),
{
    Expansion { allow_unused: mobile && !desktop, run: desktop, android_main: mobile }
}

/// A function is an entry exactly if it takes no parameters, is not `async` and its name does not begin with
/// the reserved prefix; and it is handed on as it is declared.
pub proof fn a_plain_function_is_an_entry(
    name: Seq<char>,
    parameters: nat,
    is_async: bool,
    result: Result<Factory, EntryError>,
)
    requires
        is_entry(Ok((name, parameters, is_async)), result),
    ensures
        result is Ok <==> parameters == 0 && !is_async && !(name.len() >= 8 && name.take(8) == "__lxlake"@),
        result matches Ok(factory) ==> factory.declared() == (name, parameters, is_async),
        parameters > 0 ==> result == Err::<Factory, EntryError>(EntryError::Parameters),
        parameters == 0 && is_async ==> result == Err::<Factory, EntryError>(EntryError::Async),
{
    reveal_strlit("__lxlake");
    assert("__lxlake"@.len() == 8);
    if name.len() >= 8 {
        assert(name.subrange(0, 8) =~= name.take(8));
    }
}

} // verus!
