//! Plain request descriptions for the two query entry points, and the
//! parser for `--name value` parameter pairs given on the command line.

use vstd::prelude::*;
use vstd::string::{StringExecFns, StrSliceExecFns};
use crate::config::OutputFormat;
use crate::stored_query::StringMap;
use crate::refs::name_views;
use crate::text::{chars_of, string_of_chars};

verus! {

/// A request to run an ad-hoc SQL query.
#[derive(Debug)]
pub struct QueryArgs {
    /// The SQL text.
    pub sql: String,
    /// Database name override.
    pub db: Option<String>,
    /// Container name override.
    pub container: Option<String>,
    /// Output format override.
    pub output: Option<OutputFormat>,
    /// Suppress non-essential output.
    pub quiet: bool,
}

/// A request to run a stored query.
#[derive(Debug)]
pub struct RunArgs {
    /// The stored query's name; absent means pick interactively.
    pub name: Option<String>,
    /// Raw `--name value` parameter pairs.
    pub params: Vec<String>,
    /// Output format override.
    pub output: Option<OutputFormat>,
    /// Database name override.
    pub db: Option<String>,
    /// Container name override.
    pub container: Option<String>,
    /// Template file override.
    pub template: Option<String>,
    /// Suppress non-essential output.
    pub quiet: bool,
}

/// A failure while reading `--name value` pairs.
#[derive(Debug)]
pub enum CliParamError {
    /// An argument in key position does not start with `--`.
    BadFormat { arg: String },
    /// The last key has no value after it.
    MissingValue { name: String },
}

/// An argument in key position: starts with `--`.
pub open spec fn is_key_arg(a: Seq<char>) -> bool {
    a.len() >= 2 && a[0] == '-' && a[1] == '-'
}

/// The parameter name of a key argument: the text after `--`.
pub open spec fn key_name(a: Seq<char>) -> Seq<char> {
    a.skip(2)
}

/// The raw arguments form alternating `--name value` pairs.
pub open spec fn cli_pairs_valid(args: Seq<Seq<char>>) -> bool
    decreases args.len(),
{
    if args.len() == 0 {
        true
    } else {
        args.len() >= 2 && is_key_arg(args[0]) && cli_pairs_valid(args.skip(2))
    }
}

/// The value bound to parameter `k` by the pairs, later pairs overriding
/// earlier ones.
pub open spec fn cli_value(args: Seq<Seq<char>>, k: Seq<char>) -> Option<Seq<char>>
    decreases args.len(),
{
    if args.len() < 2 {
        None
    } else {
        match cli_value(args.skip(2), k) {
            Some(v) => Some(v),
            None => if key_name(args[0]) == k {
                Some(args[1])
            } else {
                None
            },
        }
    }
}

/// Parses `--name value` pairs into a parameter map; a later pair for the
/// same name overrides an earlier one. Fails on a key that does not start
/// with `--`, or on a trailing key without a value.
pub fn parse_cli_params(params: &Vec<String>) -> (r: Result<StringMap, CliParamError>)
    ensures
        ({
            let av = name_views(*params);
            match r {
                Ok(m) => {
                    &&& cli_pairs_valid(av)
                    &&& forall|k: Seq<char>| #[trigger] m.spec_get(k) == cli_value(av, k)
                },
                Err(e) => {
                    &&& !cli_pairs_valid(av)
                    &&& (match e {
                        CliParamError::BadFormat { arg } => exists|i: int|
                            0 <= i < av.len() && i % 2 == 0 && !is_key_arg(#[trigger] av[i])
                                && arg@ == av[i],
                        CliParamError::MissingValue { name } => av.len() % 2 == 1 && name@
                            == key_name(av[av.len() - 1]),
                    })
                },
            }
        }),
{
    let ghost av = name_views(*params);
    let mut map: StringMap = StringMap::new();
    let mut i: usize = 0;
    proof {
        assert(av.skip(0) =~= av);
    }
    while i < params.len()
        invariant
            i <= params@.len(),
            i % 2 == 0,
            av == name_views(*params),
            av.len() == params@.len(),
            cli_pairs_valid(av) == cli_pairs_valid(av.skip(i as int)),
            forall|i2: int| 0 <= i2 < i && i2 % 2 == 0 ==> is_key_arg(#[trigger] av[i2]),
            forall|k: Seq<char>|
                #[trigger] map.spec_get(k) == cli_prefix_value(av, i as int, k),
        decreases params@.len() - i,
    {
        let key: &String = &params[i];
        let cs: Vec<char> = chars_of(key.as_str());
        let good: bool = cs.len() >= 2 && cs[0] == '-' && cs[1] == '-';
        if !good {
            proof {
                assert(!is_key_arg(av[i as int]));
                assert(av.skip(i as int)[0] == av[i as int]);
                lemma_cli_invalid(av, i as int);
            }
            return Err(CliParamError::BadFormat { arg: key.clone() });
        }
        if i + 1 >= params.len() {
            proof {
                assert(av.skip(i as int).len() == 1);
                assert(!cli_pairs_valid(av.skip(i as int)));
                assert(av.skip(i as int)[0] == av[av.len() - 1]);
            }
            let name_chars: Vec<char> = crate::stored_query::sub_chars(&cs, 2, cs.len());
            proof {
                assert(name_chars@ =~= key_name(av[av.len() - 1]));
            }
            return Err(CliParamError::MissingValue { name: string_of_chars(&name_chars) });
        }
        let name_chars: Vec<char> = crate::stored_query::sub_chars(&cs, 2, cs.len());
        let name: String = string_of_chars(&name_chars);
        let value: String = params[i + 1].clone();
        proof {
            assert(name@ =~= key_name(av[i as int]));
        }
        map.insert(name, value);
        proof {
            assert(av.skip(i as int)[0] == av[i as int]);
            assert(av.skip(i as int)[1] == av[i + 1]);
            assert(av.skip(i as int).skip(2) =~= av.skip(i + 2 as int));
            assert forall|k: Seq<char>|
                #[trigger] map.spec_get(k) == cli_prefix_value(av, i + 2 as int, k) by {
                lemma_cli_prefix_step(av, i as int, k);
            }
        }
        i += 2;
    }
    proof {
        assert(av.skip(av.len() as int).len() == 0);
        assert forall|k: Seq<char>| #[trigger] map.spec_get(k) == cli_value(av, k) by {
            lemma_cli_prefix_full(av, k);
        }
    }
    Ok(map)
}

/// The value bound by the first `upto` arguments alone.
pub open spec fn cli_prefix_value(args: Seq<Seq<char>>, upto: int, k: Seq<char>) -> Option<
    Seq<char>,
>
    decreases upto,
{
    if upto < 2 {
        None
    } else {
        match cli_prefix_value(args, upto - 2, k) {
            _ => if 0 <= upto - 2 && upto <= args.len() && key_name(args[upto - 2]) == k {
                Some(args[upto - 1])
            } else {
                cli_prefix_value(args, upto - 2, k)
            },
        }
    }
}

proof fn lemma_cli_invalid(args: Seq<Seq<char>>, i: int)
    requires
        0 <= i < args.len(),
        !is_key_arg(args[i]),
        cli_pairs_valid(args) == cli_pairs_valid(args.skip(i)),
    ensures
        !cli_pairs_valid(args),
{
    assert(args.skip(i)[0] == args[i]);
    assert(args.skip(i).len() > 0);
}

proof fn lemma_cli_prefix_step(args: Seq<Seq<char>>, i: int, k: Seq<char>)
    requires
        0 <= i,
        i + 2 <= args.len(),
    ensures
        cli_prefix_value(args, i + 2, k) == (if key_name(args[i]) == k {
            Some(args[i + 1])
        } else {
            cli_prefix_value(args, i, k)
        }),
{
}

/// On an even-length argument list, the prefix accumulation up to the end
/// agrees with the recursive last-wins lookup.
proof fn lemma_cli_prefix_full(args: Seq<Seq<char>>, k: Seq<char>)
    requires
        args.len() % 2 == 0,
    ensures
        cli_prefix_value(args, args.len() as int, k) == cli_value(args, k),
    decreases args.len(),
{
    if args.len() >= 2 {
        lemma_cli_prefix_shift(args, args.len() as int, k);
        lemma_cli_prefix_full(args.skip(2), k);
    }
}

/// Prefix accumulation commutes with dropping the first pair.
proof fn lemma_cli_prefix_shift(args: Seq<Seq<char>>, upto: int, k: Seq<char>)
    requires
        2 <= upto <= args.len(),
        upto % 2 == 0,
    ensures
        cli_prefix_value(args, upto, k) == (match cli_prefix_value(args.skip(2), upto - 2, k) {
            Some(v) => Some(v),
            None => if key_name(args[0]) == k {
                Some(args[1])
            } else {
                None
            },
        }),
    decreases upto,
{
    if upto == 2 {
        assert(cli_prefix_value(args, 0, k) is None);
        assert(cli_prefix_value(args.skip(2), 0, k) is None);
        assert(args[0] == args[upto - 2]);
        assert(args[1] == args[upto - 1]);
    } else {
        lemma_cli_prefix_shift(args, upto - 2, k);
        assert(args.skip(2)[upto - 4] == args[upto - 2]);
        assert(args.skip(2)[upto - 3] == args[upto - 1]);
        assert(args.skip(2).len() == args.len() - 2);
        assert(cli_prefix_value(args, upto, k) == (if key_name(args[upto - 2]) == k {
            Some(args[upto - 1])
        } else {
            cli_prefix_value(args, upto - 2, k)
        }));
        assert(cli_prefix_value(args.skip(2), upto - 2, k) == (if key_name(
            args.skip(2)[upto - 4],
        ) == k {
            Some(args.skip(2)[upto - 3])
        } else {
            cli_prefix_value(args.skip(2), upto - 4, k)
        }));
    }
}

} // verus!
