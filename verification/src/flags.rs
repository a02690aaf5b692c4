//! Single-dash long flags in the style of Go's `flag` package (`-hd 20`,
//! `-ico path`), accepted by rewriting them to double-dash flags.

use vstd::prelude::*;
use crate::text::{chars_eq, chars_of, concat_vec, index_of_char, index_of_char_exec, slice_vec, string_of, starts_with};

verus! {

/// Whether `names` holds `x`.
pub open spec fn names_contain(names: Seq<Seq<char>>, x: Seq<char>) -> bool {
    exists|i: int| 0 <= i < names.len() && #[trigger] names[i] == x
}

/// How one argument is rewritten outside a `--` passthrough: `-v`
/// becomes `--version`; `-flag` and `-flag=value` become `--flag` and
/// `--flag=value` when `flag` is a known legacy flag; anything else is
/// kept.
pub open spec fn normalize_arg(arg: Seq<char>, legacy: Seq<Seq<char>>) -> Seq<char> {
    if arg == "-v"@ {
        "--version"@
    } else if starts_with(arg, seq!['-']) && !starts_with(arg.drop_first(), seq!['-']) {
        let name = arg.drop_first();
        match index_of_char(name, '=') {
            Some(k) => if names_contain(legacy, name.take(k)) {
                "--"@ + name
            } else {
                arg
            },
            None => if names_contain(legacy, name) {
                "--"@ + name
            } else {
                arg
            },
        }
    } else {
        arg
    }
}

/// Whether some argument before position `i` is `--`.
pub open spec fn after_double_dash(args: Seq<Seq<char>>, i: int) -> bool {
    exists|j: int| 0 <= j < i && #[trigger] args[j] == "--"@
}

/// The arguments as rewritten: each one normalized, except those after
/// the first `--`, which pass through unchanged.
pub open spec fn normalized_args(args: Seq<Seq<char>>, legacy: Seq<Seq<char>>) -> Seq<Seq<char>> {
    Seq::new(
        args.len(),
        |i: int|
            if after_double_dash(args, i) {
                args[i]
            } else {
                normalize_arg(args[i], legacy)
            },
    )
}

fn contains_name(legacy: &[&str], x: &Vec<char>) -> (b: bool)
    ensures
        b == names_contain(legacy@.map_values(|s: &str| s@), x@),
{
    let ghost lv = legacy@.map_values(|s: &str| s@);
    let mut i: usize = 0;
    while i < legacy.len()
        invariant
            i <= legacy@.len(),
            lv == legacy@.map_values(|s: &str| s@),
            forall|k: int| 0 <= k < i ==> lv[k] != x@,
        decreases legacy@.len() - i,
    {
        assert(lv[i as int] == legacy@[i as int]@);
        if chars_eq(&chars_of(legacy[i]), x) {
            return true;
        }
        i += 1;
    }
    false
}

fn normalize_arg_exec(arg: &String, legacy: &[&str]) -> (r: String)
    ensures
        r@ == normalize_arg(arg@, legacy@.map_values(|s: &str| s@)),
{
    let a = chars_of(arg.as_str());
    if chars_eq(&a, &chars_of("-v")) {
        return "--version".to_owned();
    }
    if a.len() > 0 && a[0] == '-' && !(a.len() > 1 && a[1] == '-') {
        let name = slice_vec(&a, 1, a.len());
        assert(name@ =~= a@.drop_first());
        assert(starts_with(a@, seq!['-'])) by {
            assert(a@.take(1) =~= seq!['-']);
        }
        assert(!starts_with(name@, seq!['-'])) by {
            if name@.len() >= 1 && name@.take(1) == seq!['-'] {
                assert(name@.take(1)[0] == '-');
            }
        }
        let dd = chars_of("--");
        proof {
            crate::text::lemma_index_of_char(name@, '=');
        }
        let known = match index_of_char_exec(&name, '=') {
            Some(k) => {
                let flag = slice_vec(&name, 0, k);
                assert(flag@ =~= name@.take(k as int));
                contains_name(legacy, &flag)
            },
            None => contains_name(legacy, &name),
        };
        if known {
            return string_of(&concat_vec(&dd, &name));
        }
        return arg.clone();
    }
    proof {
        if starts_with(a@, seq!['-']) {
            assert(a@.take(1)[0] == '-');
            assert(a@[0] == '-');
            assert(starts_with(a@.drop_first(), seq!['-'])) by {
                assert(a@.drop_first().take(1) =~= seq!['-']);
            }
        }
    }
    arg.clone()
}

/// Converts Go-style single-dash flags to double-dash flags, so that
/// existing user configurations keep working: `-flag` and `-flag=value`
/// become `--flag` and `--flag=value` for the known `legacy_flags`, `-v`
/// becomes `--version`, and everything after `--` passes unchanged.
pub fn normalize_legacy_flags(args: Vec<String>, legacy_flags: &[&str]) -> (r: Vec<String>)
    ensures
        r.deep_view() == normalized_args(args.deep_view(), legacy_flags@.map_values(|s: &str| s@)),
{
    let ghost av = args.deep_view();
    let ghost lv = legacy_flags@.map_values(|s: &str| s@);
    let dd = chars_of("--");
    let mut result: Vec<String> = Vec::new();
    let mut passthrough = false;
    let mut i: usize = 0;
    while i < args.len()
        invariant
            i <= args@.len(),
            av == args.deep_view(),
            lv == legacy_flags@.map_values(|s: &str| s@),
            dd@ == "--"@,
            passthrough == after_double_dash(av, i as int),
            result.deep_view() == normalized_args(av, lv).take(i as int),
        decreases args@.len() - i,
    {
        let ghost before = result.deep_view();
        let out = if passthrough {
            args[i].clone()
        } else {
            normalize_arg_exec(&args[i], legacy_flags)
        };
        assert(av[i as int] == args@[i as int]@);
        assert(out@ == normalized_args(av, lv)[i as int]);
        result.push(out);
        assert(result.deep_view() =~= before.push(out@));
        assert(result.deep_view() =~= normalized_args(av, lv).take(i + 1));
        if !passthrough && chars_eq(&chars_of(args[i].as_str()), &dd) {
            passthrough = true;
        }
        assert(passthrough == after_double_dash(av, i + 1)) by {
            if after_double_dash(av, i + 1) && !after_double_dash(av, i as int) {
                assert(av[i as int] == "--"@);
            }
        }
        i += 1;
    }
    assert(normalized_args(av, lv).take(args@.len() as int) =~= normalized_args(av, lv));
    result
}

/// The rewriting keeps one output argument per input argument, and never
/// touches what follows the first `--`.
pub proof fn normalize_passthrough_law(args: Seq<Seq<char>>, legacy: Seq<Seq<char>>, i: int)
    requires
        0 <= i < args.len(),
        after_double_dash(args, i),
    ensures
        normalized_args(args, legacy).len() == args.len(),
        normalized_args(args, legacy)[i] == args[i],
{
}

} // verus!
