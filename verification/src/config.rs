//! Configuration resolution: command-line style arguments and one injected
//! environment value become a validated [`Config`], modelled in full by the
//! spec function [`resolved`].

use vstd::prelude::*;

use crate::text::str_eq;
use crate::text::string_views;

verus! {

/// A resolved search configuration, immutable once built.
#[derive(Debug)]
pub struct Config {
    pub query: String,
    pub file_path: String,
    pub ignore_case: bool,
    pub case_sensitive: bool,
    pub line_number: bool,
    pub replace: String,
}

/// The mathematical content of a [`Config`].
pub ghost struct ConfigV {
    pub query: Seq<char>,
    pub file_path: Seq<char>,
    pub ignore_case: bool,
    pub case_sensitive: bool,
    pub line_number: bool,
    pub replace: Seq<char>,
}

impl View for Config {
    type V = ConfigV;

    open spec fn view(&self) -> ConfigV {
        ConfigV {
            query: self.query@,
            file_path: self.file_path@,
            ignore_case: self.ignore_case,
            case_sensitive: self.case_sensitive,
            line_number: self.line_number,
            replace: self.replace@,
        }
    }
}

/// The characters of an optional owned string.
pub open spec fn opt_string_view(o: Option<String>) -> Option<Seq<char>> {
    match o {
        Some(s) => Some(s@),
        None => None,
    }
}

/// The argument asks for case-sensitive matching.
pub open spec fn is_case_sensitive_flag(a: Seq<char>) -> bool {
    a == "-s"@ || a == "--case-sensitive"@
}

/// The argument asks for case-insensitive matching.
pub open spec fn is_ignore_case_flag(a: Seq<char>) -> bool {
    a == "-i"@ || a == "--ignore-case"@
}

/// The argument asks for line numbering.
pub open spec fn is_line_number_flag(a: Seq<char>) -> bool {
    a == "-n"@ || a == "--line-number"@
}

/// The argument introduces a replacement value.
pub open spec fn is_replace_flag(a: Seq<char>) -> bool {
    a == "-r"@ || a == "--replace"@
}

pub open spec fn has_case_sensitive_flag(args: Seq<Seq<char>>) -> bool {
    exists|i: int| 0 <= i < args.len() && is_case_sensitive_flag(#[trigger] args[i])
}

pub open spec fn has_ignore_case_flag(args: Seq<Seq<char>>) -> bool {
    exists|i: int| 0 <= i < args.len() && is_ignore_case_flag(#[trigger] args[i])
}

pub open spec fn has_line_number_flag(args: Seq<Seq<char>>) -> bool {
    exists|i: int| 0 <= i < args.len() && is_line_number_flag(#[trigger] args[i])
}

/// The value after the first replace flag, or empty when there is no such
/// flag or nothing follows it.
pub open spec fn replace_value(args: Seq<Seq<char>>) -> Seq<char>
    decreases args.len(),
{
    if args.len() == 0 {
        Seq::empty()
    } else if is_replace_flag(args[0]) {
        if args.len() >= 2 {
            args[1]
        } else {
            Seq::empty()
        }
    } else {
        replace_value(args.drop_first())
    }
}

/// Case-insensitive matching is requested: a set environment value decides
/// by itself (the flags are then ignored), an unset one defers to `-i`.
pub open spec fn ignore_case_requested(flags: Seq<Seq<char>>, env: Option<Seq<char>>) -> bool {
    match env {
        Some(v) => v == "1"@,
        None => has_ignore_case_flag(flags),
    }
}

/// What configuration resolution returns for given arguments (the first one
/// is the program name and is discarded) and environment value: the
/// configuration, or the message naming the missing argument.
pub open spec fn resolved(args: Seq<Seq<char>>, env: Option<Seq<char>>) -> Result<
    ConfigV,
    Seq<char>,
> {
    if args.len() < 2 || args[1].len() == 0 {
        Err("Didn't get a query string"@)
    } else if args.len() < 3 || args[2].len() == 0 {
        Err("Didn't get a file path"@)
    } else {
        let flags = args.skip(3);
        let cs = has_case_sensitive_flag(flags);
        Ok(
            ConfigV {
                query: args[1],
                file_path: args[2],
                ignore_case: !cs && ignore_case_requested(flags, env),
                case_sensitive: cs,
                line_number: has_line_number_flag(flags),
                replace: replace_value(flags),
            },
        )
    }
}

impl Config {
    /// A well-formed configuration: non-empty query and file path, and never
    /// both case policies at once.
    pub open spec fn wf(&self) -> bool {
        self@.query.len() > 0 && self@.file_path.len() > 0 && !(self@.case_sensitive
            && self@.ignore_case)
    }

    /// Resolve a configuration from the argument strings and the injected
    /// value of the case environment variable (`None` when it is unset).
    pub fn build(args: Vec<String>, ignore_case_env: Option<String>) -> (result: Result<
        Config,
        &'static str,
    >)
        ensures
            match result {
                Ok(c) => resolved(string_views(args@), opt_string_view(ignore_case_env)) == Ok::<
                    ConfigV,
                    Seq<char>,
                >(c@) && c.wf(),
                Err(e) => resolved(string_views(args@), opt_string_view(ignore_case_env)) == Err::<
                    ConfigV,
                    Seq<char>,
                >(e@),
            },
    {
        if args.len() < 2 || args[1].as_str().is_empty() {
            return Err("Didn't get a query string");
        }
        if args.len() < 3 || args[2].as_str().is_empty() {
            return Err("Didn't get a file path");
        }
        let query = args[1].clone();
        let file_path = args[2].clone();

        let mut flags: Vec<String> = Vec::new();
        let mut i: usize = 3;
        proof {
            assert(string_views(flags@) =~= string_views(args@).subrange(3, 3));
        }
        while i < args.len()
            invariant
                3 <= i <= args@.len(),
                string_views(flags@) == string_views(args@).subrange(3, i as int),
            decreases args@.len() - i,
        {
            let ghost flags_before = flags@;
            flags.push(args[i].clone());
            proof {
                assert(string_views(flags_before).len() == flags_before.len());
                assert(forall|k: int|
                    0 <= k < flags_before.len() ==> #[trigger] string_views(flags_before)[k]
                        == string_views(args@).subrange(3, i as int)[k]);
                assert(string_views(flags@) =~~= string_views(args@).subrange(3, i + 1));
            }
            i = i + 1;
        }
        proof {
            assert(string_views(flags@) =~= string_views(args@).skip(3));
        }

        let case_sensitive = Self::find_case_sensitive(&flags);
        let ignore_case = !case_sensitive && Self::find_ignore_case(&flags, &ignore_case_env);
        let line_number = Self::find_line_number(&flags);
        let replace = Self::find_replace(flags);

        Ok(
            Config {
                query,
                file_path,
                case_sensitive,
                ignore_case,
                line_number,
                replace,
            },
        )
    }

    /// Whether the flag arguments ask for case-sensitive matching.
    fn find_case_sensitive(args: &Vec<String>) -> (r: bool)
        ensures
            r == has_case_sensitive_flag(string_views(args@)),
    {
        let mut i: usize = 0;
        while i < args.len()
            invariant
                i <= args@.len(),
                forall|k: int|
                    0 <= k < i ==> !is_case_sensitive_flag(#[trigger] string_views(args@)[k]),
            decreases args@.len() - i,
        {
            if str_eq(args[i].as_str(), "-s") || str_eq(args[i].as_str(), "--case-sensitive") {
                proof {
                    assert(is_case_sensitive_flag(string_views(args@)[i as int]));
                }
                return true;
            }
            i = i + 1;
        }
        false
    }

    /// Whether case-insensitive matching is requested, given the flag
    /// arguments and the injected environment value.
    fn find_ignore_case(args: &Vec<String>, env_val: &Option<String>) -> (r: bool)
        ensures
            r == ignore_case_requested(string_views(args@), opt_string_view(*env_val)),
    {
        match env_val {
            Some(v) => str_eq(v.as_str(), "1"),
            None => {
                let mut i: usize = 0;
                while i < args.len()
                    invariant
                        i <= args@.len(),
                        (*env_val) is None,
                        forall|k: int|
                            0 <= k < i ==> !is_ignore_case_flag(
                                #[trigger] string_views(args@)[k],
                            ),
                    decreases args@.len() - i,
                {
                    if str_eq(args[i].as_str(), "-i") || str_eq(
                        args[i].as_str(),
                        "--ignore-case",
                    ) {
                        proof {
                            assert(is_ignore_case_flag(string_views(args@)[i as int]));
                        }
                        return true;
                    }
                    i = i + 1;
                }
                false
            },
        }
    }

    /// Whether the flag arguments ask for line numbering.
    fn find_line_number(args: &Vec<String>) -> (r: bool)
        ensures
            r == has_line_number_flag(string_views(args@)),
    {
        let mut i: usize = 0;
        while i < args.len()
            invariant
                i <= args@.len(),
                forall|k: int|
                    0 <= k < i ==> !is_line_number_flag(#[trigger] string_views(args@)[k]),
            decreases args@.len() - i,
        {
            if str_eq(args[i].as_str(), "-n") || str_eq(args[i].as_str(), "--line-number") {
                proof {
                    assert(is_line_number_flag(string_views(args@)[i as int]));
                }
                return true;
            }
            i = i + 1;
        }
        false
    }

    /// The replacement value among the flag arguments: what follows the
    /// first `-r`/`--replace`, or empty.
    fn find_replace(args: Vec<String>) -> (r: String)
        ensures
            r@ == replace_value(string_views(args@)),
    {
        let mut i: usize = 0;
        proof {
            assert(string_views(args@).skip(0) =~= string_views(args@));
        }
        while i < args.len()
            invariant
                i <= args@.len(),
                replace_value(string_views(args@)) == replace_value(
                    string_views(args@).skip(i as int),
                ),
            decreases args@.len() - i,
        {
            let ghost rest = string_views(args@).skip(i as int);
            proof {
                assert(rest[0] == args@[i as int]@);
            }
            if str_eq(args[i].as_str(), "-r") || str_eq(args[i].as_str(), "--replace") {
                if i + 1 < args.len() {
                    proof {
                        assert(rest[1] == args@[i + 1]@);
                    }
                    return args[i + 1].clone();
                } else {
                    return String::new();
                }
            }
            proof {
                assert(rest.drop_first() =~= string_views(args@).skip(i + 1));
            }
            i = i + 1;
        }
        proof {
            assert(string_views(args@).skip(i as int) =~= Seq::<Seq<char>>::empty());
        }
        String::new()
    }
}

/// The case-sensitive flag always wins: when the flag arguments contain it,
/// the resolved configuration is case-sensitive and never case-insensitive,
/// whatever `-i` or the environment asked for.
pub proof fn lemma_case_sensitive_flag_wins(args: Seq<Seq<char>>, env: Option<Seq<char>>)
    requires
        resolved(args, env) is Ok,
        has_case_sensitive_flag(args.skip(3)),
    ensures
        resolved(args, env)->Ok_0.case_sensitive,
        !resolved(args, env)->Ok_0.ignore_case,
{
}

/// An environment value of exactly `"1"` forces case-insensitive matching
/// whenever the case-sensitive flag is absent, whether or not `-i` is given.
pub proof fn lemma_env_forces_ignore_case(args: Seq<Seq<char>>, env: Option<Seq<char>>)
    requires
        resolved(args, env) is Ok,
        env == Some("1"@),
        !has_case_sensitive_flag(args.skip(3)),
    ensures
        resolved(args, env)->Ok_0.ignore_case,
{
}

} // verus!
