use vstd::prelude::*;
use vstd::string::StrSliceExecFns;
use vstd::string::StringExecFns;

verus! {

/// Default sample-grid root: one sample per pixel.
pub const DEFAULT_SAMPLE_ROOT: usize = 1;

/// Default maximum recursion depth.
pub const DEFAULT_MAX_DEPTH: usize = 3;

/// The render configuration: sample-grid root (pixel samples are its
/// square), maximum recursion depth, console quietness, output path, and the
/// name of the scene to build.
#[derive(Debug, Clone)]
pub struct Config {
    pub sample_root: usize,
    pub quiet: bool,
    pub max_depth: usize,
    pub output_file: String,
    pub scene_name: String,
}

/// Why a set of command-line values was rejected.
#[derive(Clone, Copy, PartialEq, Eq, Structural, Debug)]
pub enum ConfigError {
    /// The sample root was not a decimal integer of at least 1.
    InvalidSampleRoot,
    /// The maximum depth was not a decimal integer.
    InvalidDepth,
    /// No scene name was given, and a render cannot start without one.
    MissingSceneName,
}

/// Whether a character is a decimal digit.
pub open spec fn is_dec_digit(c: char) -> bool {
    48 <= c as u32 <= 57
}

/// The value of one decimal digit.
pub open spec fn digit_value(c: char) -> int {
    c as u32 - 48
}

/// Whether a string is all decimal digits.
pub open spec fn all_dec_digits(s: Seq<char>) -> bool {
    forall|i: int| 0 <= i < s.len() ==> is_dec_digit(#[trigger] s[i])
}

/// The non-negative integer a digit string stands for, most significant
/// digit first.
pub open spec fn dec_value(s: Seq<char>) -> int
    decreases s.len(),
{
    if s.len() == 0 {
        0
    } else {
        dec_value(s.drop_last()) * 10 + digit_value(s.last())
    }
}

/// Whether a string parses as a `usize`: non-empty, all digits, and within
/// the machine's range.
pub open spec fn parses_to_usize(s: Seq<char>) -> bool {
    s.len() > 0 && all_dec_digits(s) && dec_value(s) <= usize::MAX
}

proof fn lemma_dec_value_nonneg(s: Seq<char>)
    requires
        all_dec_digits(s),
    ensures
        dec_value(s) >= 0,
    decreases s.len(),
{
    if s.len() > 0 {
        assert(all_dec_digits(s.drop_last())) by {
            assert(forall|i: int| 0 <= i < s.len() - 1 ==> s.drop_last()[i] == s[i]);
        }
        lemma_dec_value_nonneg(s.drop_last());
    }
}

/// A digit string is worth at least any of its prefixes: appending digits
/// never shrinks the value.
proof fn lemma_dec_value_prefix_le(s: Seq<char>, i: int)
    requires
        all_dec_digits(s),
        0 <= i <= s.len(),
    ensures
        dec_value(s.take(i)) <= dec_value(s),
    decreases s.len() - i,
{
    if i < s.len() {
        lemma_dec_value_prefix_le(s, i + 1);
        assert(s.take(i + 1).drop_last() =~= s.take(i));
        assert(all_dec_digits(s.take(i))) by {
            assert(forall|j: int| 0 <= j < i ==> s.take(i)[j] == s[j]);
        }
        lemma_dec_value_nonneg(s.take(i));
        assert(dec_value(s.take(i + 1)) == dec_value(s.take(i)) * 10 + digit_value(s[i]));
        assert(is_dec_digit(s[i]));
    } else {
        assert(s.take(i) =~= s);
    }
}

/// Parses a decimal `usize`: succeeds exactly on the non-empty all-digit
/// strings whose value fits the machine word, and then returns that value.
pub fn parse_usize(s: &str) -> (r: Option<usize>)
    ensures
        parses_to_usize(s@) ==> r == Some(dec_value(s@) as usize),
        !parses_to_usize(s@) ==> r is None,
{
    let len = s.unicode_len();
    if len == 0 {
        return None;
    }
    let mut acc: usize = 0;
    let mut i: usize = 0;
    while i < len
        invariant
            0 <= i <= len,
            len == s@.len(),
            all_dec_digits(s@.take(i as int)),
            acc == dec_value(s@.take(i as int)),
        decreases len - i,
    {
        let c = s.get_char(i);
        let cv = c as u32;
        if cv < 48 || cv > 57 {
            assert(!is_dec_digit(s@[i as int]));
            return None;
        }
        let d: usize = (cv - 48) as usize;
        proof {
            assert(s@.take(i as int + 1).drop_last() =~= s@.take(i as int));
            assert(s@.take(i as int + 1).last() == s@[i as int]);
            assert(all_dec_digits(s@.take(i as int + 1))) by {
                assert(forall|j: int|
                    0 <= j < i ==> #[trigger] s@.take(i as int + 1)[j] == s@.take(i as int)[j]);
            }
        }
        if acc > (usize::MAX - d) / 10 {
            proof {
                vstd::arithmetic::div_mod::lemma_fundamental_div_mod(
                    (usize::MAX - d) as int,
                    10,
                );
                vstd::arithmetic::div_mod::lemma_mod_bound((usize::MAX - d) as int, 10);
                assert(dec_value(s@.take(i as int + 1)) > usize::MAX);
                if all_dec_digits(s@) {
                    lemma_dec_value_prefix_le(s@, i as int + 1);
                }
            }
            return None;
        }
        proof {
            vstd::arithmetic::div_mod::lemma_fundamental_div_mod((usize::MAX - d) as int, 10);
            vstd::arithmetic::div_mod::lemma_mod_bound((usize::MAX - d) as int, 10);
            assert(acc * 10 + d <= usize::MAX);
        }
        acc = acc * 10 + d;
        i = i + 1;
    }
    proof {
        assert(s@.take(len as int) =~= s@);
    }
    Some(acc)
}

/// The sample root the arguments call for: the default when absent, else the
/// parsed value.
pub open spec fn spec_sample_root(arg: Option<&str>) -> int {
    match arg {
        Option::None => DEFAULT_SAMPLE_ROOT as int,
        Option::Some(s) => dec_value(s@),
    }
}

/// The maximum depth the arguments call for.
pub open spec fn spec_max_depth(arg: Option<&str>) -> int {
    match arg {
        Option::None => DEFAULT_MAX_DEPTH as int,
        Option::Some(s) => dec_value(s@),
    }
}

/// Whether the sample-root argument is acceptable: absent, or a decimal
/// integer of at least 1.
pub open spec fn sample_root_ok(arg: Option<&str>) -> bool {
    match arg {
        Option::None => true,
        Option::Some(s) => parses_to_usize(s@) && dec_value(s@) >= 1,
    }
}

/// Whether the depth argument is acceptable: absent, or a decimal integer.
pub open spec fn max_depth_ok(arg: Option<&str>) -> bool {
    match arg {
        Option::None => true,
        Option::Some(s) => parses_to_usize(s@),
    }
}

/// Builds the render configuration from the raw command-line values, checked
/// in the order the command line lists them: a malformed or zero sample root
/// is rejected first, then a malformed depth, then a missing scene name;
/// absent values fall back to their documented defaults (sample root 1,
/// depth 3, output path "output.ppm").
pub fn config_from_args(
    quiet: bool,
    sample_root: Option<&str>,
    max_depth: Option<&str>,
    output_file: Option<&str>,
    scene_name: Option<&str>,
) -> (r: Result<Config, ConfigError>)
    ensures
        !sample_root_ok(sample_root) ==> r == Result::<Config, ConfigError>::Err(
            ConfigError::InvalidSampleRoot,
        ),
        sample_root_ok(sample_root) && !max_depth_ok(max_depth) ==> r == Result::<
            Config,
            ConfigError,
        >::Err(ConfigError::InvalidDepth),
        sample_root_ok(sample_root) && max_depth_ok(max_depth) && scene_name is None ==> r
            == Result::<Config, ConfigError>::Err(ConfigError::MissingSceneName),
        sample_root_ok(sample_root) && max_depth_ok(max_depth) && scene_name is Some ==> (
        r matches Result::Ok(c) && c.quiet == quiet && c.sample_root == spec_sample_root(
            sample_root,
        ) && c.max_depth == spec_max_depth(max_depth) && (match output_file {
            Option::None => c.output_file@ == "output.ppm"@,
            Option::Some(s) => c.output_file@ == s@,
        }) && c.scene_name@ == scene_name.unwrap()@),
{
    let root: usize = match sample_root {
        None => DEFAULT_SAMPLE_ROOT,
        Some(s) => match parse_usize(s) {
            None => {
                return Err(ConfigError::InvalidSampleRoot);
            },
            Some(v) => {
                proof {
                    lemma_dec_value_nonneg(s@);
                }
                if v == 0 {
                    return Err(ConfigError::InvalidSampleRoot);
                }
                v
            },
        },
    };
    let depth: usize = match max_depth {
        None => DEFAULT_MAX_DEPTH,
        Some(s) => match parse_usize(s) {
            None => {
                return Err(ConfigError::InvalidDepth);
            },
            Some(v) => {
                proof {
                    lemma_dec_value_nonneg(s@);
                }
                v
            },
        },
    };
    let output: String = match output_file {
        None => String::from_str("output.ppm"),
        Some(s) => String::from_str(s),
    };
    let scene: String = match scene_name {
        None => {
            return Err(ConfigError::MissingSceneName);
        },
        Some(s) => String::from_str(s),
    };
    Ok(Config { sample_root: root, quiet, max_depth: depth, output_file: output, scene_name: scene })
}

} // verus!
