use vstd::prelude::*;

verus! {

/// A language the interface greeting can be shown in.
#[derive(Debug, Clone, Copy, PartialEq, Eq, Structural)]
pub enum Language {
    Danish,
    English,
    French,
    German,
    Italian,
    Portuguese,
    Spanish,
    Other,
}

/// The greeting each language shows.
pub open spec fn spec_hello(l: Language) -> Seq<char> {
    match l {
        Language::Danish => "Halloy!"@,
        Language::English => "Hello!"@,
        Language::French => "Salut!"@,
        Language::German => "Hallo!"@,
        Language::Italian => "Ciao!"@,
        Language::Portuguese => "Olá!"@,
        Language::Spanish => "¡Hola!"@,
        Language::Other => "... hello?"@,
    }
}

/// The English name each language is listed under.
pub open spec fn spec_language_name(l: Language) -> Seq<char> {
    match l {
        Language::Danish => "Danish"@,
        Language::English => "English"@,
        Language::French => "French"@,
        Language::German => "German"@,
        Language::Italian => "Italian"@,
        Language::Portuguese => "Portuguese"@,
        Language::Spanish => "Spanish"@,
        Language::Other => "Some other language"@,
    }
}

impl Language {
    /// The greeting in this language.
    pub fn hello(&self) -> (r: &str)
        ensures
            r@ == spec_hello(*self),
    {
        match self {
            Language::Danish => "Halloy!",
            Language::English => "Hello!",
            Language::French => "Salut!",
            Language::German => "Hallo!",
            Language::Italian => "Ciao!",
            Language::Portuguese => "Olá!",
            Language::Spanish => "¡Hola!",
            Language::Other => "... hello?",
        }
    }

    /// The language's English name, as a list of languages displays it.
    pub fn language_name(&self) -> (r: &str)
        ensures
            r@ == spec_language_name(*self),
    {
        match self {
            Language::Danish => "Danish",
            Language::English => "English",
            Language::French => "French",
            Language::German => "German",
            Language::Italian => "Italian",
            Language::Portuguese => "Portuguese",
            Language::Spanish => "Spanish",
            Language::Other => "Some other language",
        }
    }
}

impl Default for Language {
    /// English is the default interface language.
    fn default() -> (r: Self)
        ensures
            r == Language::English,
    {
        Language::English
    }
}

} // verus!
