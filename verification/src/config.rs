//! Where the book and the two vocabularies are found.

use vstd::prelude::*;
use vstd::std_specs::iter::IteratorSpec;

verus! {

/// The three file paths that a run needs.
#[derive(Debug, PartialEq)]
pub struct Config {
    pub book_fp: String,
    pub peace_terms_fp: String,
    pub war_terms_fp: String,
}

/// Said when the path of the book is missing.
pub const NO_BOOK: &'static str = "Didn't get a book file path";

/// Said when the path of the peace terms is missing.
pub const NO_PEACE_TERMS: &'static str = "Didn't get a peace terms file path";

/// Said when the path of the war terms is missing.
pub const NO_WAR_TERMS: &'static str = "Didn't get a war terms file path";

/// What `Config::build` makes of the arguments `args`, the first of which
/// is the program's name.
pub open spec fn built_from(args: Seq<String>, built: Result<Config, &'static str>) -> bool {
    if args.len() <= 1 {
        built == Err::<Config, &'static str>(NO_BOOK)
    } else if args.len() == 2 {
        built == Err::<Config, &'static str>(NO_PEACE_TERMS)
    } else if args.len() == 3 {
        built == Err::<Config, &'static str>(NO_WAR_TERMS)
    } else {
        built == Ok::<Config, &'static str>(
            Config { book_fp: args[1], peace_terms_fp: args[2], war_terms_fp: args[3] },
        )
    }
}

impl Config {
    /// Reads the configuration from a program's arguments.
    ///
    /// The first argument, the program's name, is passed over. The next
    /// three are the paths of the book, of the peace terms and of the war
    /// terms, in this order; what follows them is not read. The first of the
    /// three that is missing decides the error.
    pub fn build(mut args: impl Iterator<Item = String>) -> (built: Result<Config, &'static str>)
        ensures
            args.obeys_prophetic_iter_laws() ==> built_from(args.remaining(), built),
    {
        args.next();

        let book_fp = match args.next() {
            Some(arg) => arg,
            None => return Err(NO_BOOK),
        };

        let peace_terms_fp = match args.next() {
            Some(arg) => arg,
            None => return Err(NO_PEACE_TERMS),
        };

        let war_terms_fp = match args.next() {
            Some(arg) => arg,
            None => return Err(NO_WAR_TERMS),
        };

        Ok(Config { book_fp, peace_terms_fp, war_terms_fp })
    }
}

} // verus!
