//! How a failed build of a run is named, one line per build, in the marker that tells the other
//! builds of the run that it has failed.
use vstd::prelude::*;

use crate::text;

verus! {

/// The variable that names the marker of the run, a path unique to it.
pub const MARKER_PATH_ENV_VAR: &'static str = "MUTEST_BUILD_FAILURE_MARKER";

pub open spec fn crate_name_flag() -> Seq<char> {
    "--crate-name"@
}

pub open spec fn crate_name_prefix() -> Seq<char> {
    "--crate-name="@
}

/// The first argument equal to `--crate-name` among the first `m`; -1 if none is.
pub open spec fn flag_position(args: Seq<String>, m: nat) -> int
    decreases m,
{
    if m == 0 {
        -1
    } else if flag_position(args, (m - 1) as nat) >= 0 {
        flag_position(args, (m - 1) as nat)
    } else if args[m - 1]@ == crate_name_flag() {
        m - 1
    } else {
        -1
    }
}

/// What follows `--crate-name=` in the first argument among the first `m` that starts so.
pub open spec fn prefixed_name(args: Seq<String>, m: nat) -> Option<Seq<char>>
    decreases m,
{
    if m == 0 {
        None
    } else if prefixed_name(args, (m - 1) as nat).is_some() {
        prefixed_name(args, (m - 1) as nat)
    } else if crate_name_prefix().is_prefix_of(args[m - 1]@) {
        Some(args[m - 1]@.skip(crate_name_prefix().len() as int))
    } else {
        None
    }
}

/// The crate a compiler invocation builds: the argument after the first `--crate-name`, if there
/// is one after it; otherwise what follows `--crate-name=` in the first argument that starts so.
pub open spec fn crate_name_of(args: Seq<String>) -> Option<Seq<char>> {
    let i = flag_position(args, args.len());
    if i >= 0 && i + 1 < args.len() {
        Some(args[i + 1]@)
    } else {
        prefixed_name(args, args.len())
    }
}

/// What a build that failed is called: its crate, whether it is a test harness, and its package.
pub open spec fn label_of(crate_name: Option<Seq<char>>, package: Option<Seq<char>>, test_harness: bool) -> Seq<char> {
    let head = match (test_harness, crate_name) {
        (true, Some(c)) => "the test harness of `"@ + c + "`"@,
        (true, None) => "a test harness"@,
        (false, Some(c)) => "crate `"@ + c + "`"@,
        (false, None) => "a crate"@,
    };
    match package {
        Some(p) => head + " in package `"@ + p + "`"@,
        None => head,
    }
}

proof fn lemma_flag_position(args: Seq<String>, m: nat)
    ensures
        -1 <= flag_position(args, m) < m,
    decreases m,
{
    if m > 0 {
        lemma_flag_position(args, (m - 1) as nat);
    }
}

fn find_flag(args: &[String]) -> (r: Option<usize>)
    ensures
        match r {
            Some(i) => i as int == flag_position(args@, args@.len()),
            None => flag_position(args@, args@.len()) < 0,
        },
{
    let mut i: usize = 0;
    while i < args.len()
        invariant
            i <= args.len(),
            flag_position(args@, i as nat) < 0,
        decreases args.len() - i,
    {
        let chars = text::chars_of(args[i].as_str());
        if text::chars_eq(chars.as_slice(), "--crate-name") {
            proof {
                assert(flag_position(args@, i as nat + 1) == i);
                lemma_flag_at(args@, i as nat + 1, args@.len());
            }
            return Some(i);
        }
        i += 1;
    }
    None
}

proof fn lemma_flag_at(args: Seq<String>, m: nat, n: nat)
    requires
        m <= n,
        flag_position(args, m) >= 0,
    ensures
        flag_position(args, n) == flag_position(args, m),
    decreases n - m,
{
    if m < n {
        lemma_flag_at(args, m, (n - 1) as nat);
    }
}

proof fn lemma_prefixed_at(args: Seq<String>, m: nat, n: nat)
    requires
        m <= n,
        prefixed_name(args, m).is_some(),
    ensures
        prefixed_name(args, n) == prefixed_name(args, m),
    decreases n - m,
{
    if m < n {
        lemma_prefixed_at(args, m, (n - 1) as nat);
    }
}

/// Whether `s` starts with `--crate-name=`.
fn has_crate_name_prefix(s: &[char]) -> (r: bool)
    ensures
        r == crate_name_prefix().is_prefix_of(s@),
{
    proof {
        reveal_strlit("--crate-name=");
    }
    let p = text::chars_of("--crate-name=");
    if s.len() < p.len() {
        return false;
    }
    let mut i: usize = 0;
    while i < p.len()
        invariant
            i <= p.len(),
            p.len() <= s.len(),
            p@ == crate_name_prefix(),
            forall|j: int| 0 <= j < i ==> s@[j] == p@[j],
        decreases p.len() - i,
    {
        if s[i] != p[i] {
            return false;
        }
        i += 1;
    }
    assert(s@.subrange(0, p@.len() as int) =~= p@);
    true
}

/// Appends the name of the crate the arguments build, and says whether they name one.
fn push_crate_name(label: &mut String, args: &[String]) -> (found: bool)
    ensures
        found == crate_name_of(args@).is_some(),
        found ==> final(label)@ == old(label)@ + crate_name_of(args@).unwrap(),
        !found ==> final(label)@ == old(label)@,
{
    proof {
        lemma_flag_position(args@, args@.len());
        reveal_strlit("--crate-name=");
    }
    match find_flag(args) {
        Some(i) => {
            assert(i < args.len());
            if i + 1 < args.len() {
                label.append(args[i + 1].as_str());
                return true;
            }
        },
        None => {},
    }
    let mut i: usize = 0;
    while i < args.len()
        invariant
            i <= args.len(),
            prefixed_name(args@, i as nat).is_none(),
            *label == *old(label),
            !(flag_position(args@, args@.len()) >= 0 && flag_position(args@, args@.len()) + 1
                < args@.len()),
        decreases args.len() - i,
    {
        let s = args[i].as_str();
        let chars = text::chars_of(s);
        if has_crate_name_prefix(chars.as_slice()) {
            let n = s.unicode_len();
            proof {
                reveal_strlit("--crate-name=");
            }
            assert(crate_name_prefix().len() == 13);
            assert(chars@ == s@);
            assert(n == s@.len());
            assert(13 <= n);
            let name = s.substring_char(13, n);
            label.append(name);
            proof {
                assert(prefixed_name(args@, i as nat + 1) == Some(args@[i as int]@.skip(13)));
                assert(args@[i as int]@.skip(13) =~= args@[i as int]@.subrange(13, n as int));
                lemma_prefixed_at(args@, i as nat + 1, args@.len());
            }
            return true;
        }
        i += 1;
    }
    false
}

pub open spec fn str_view(s: Option<&str>) -> Option<Seq<char>> {
    match s {
        Some(s) => Some(s@),
        None => None,
    }
}

/// What a build that failed is called: its crate, whether it is a test harness, and its package.
/// One line, as the marker holds one per failed build.
pub fn build_label(args: &[String], package: Option<&str>, test_harness: bool) -> (label: String)
    ensures
        label@ == label_of(crate_name_of(args@), str_view(package), test_harness),
{
    let mut name = String::new();
    let found = push_crate_name(&mut name, args);
    let mut label = if found {
        let mut l = String::from_str(if test_harness { "the test harness of `" } else { "crate `" });
        l.append(name.as_str());
        l.append("`");
        l
    } else {
        String::from_str(if test_harness { "a test harness" } else { "a crate" })
    };
    match package {
        Some(p) => {
            label.append(" in package `");
            label.append(p);
            label.append("`");
        },
        None => {},
    }
    proof {
        assert(name@ =~= Seq::<char>::empty() + name@);
    }
    label
}

/// No argument from the first `m` holds `c`, so neither does a name found among them.
proof fn lemma_prefixed_name_without(args: Seq<String>, m: nat, c: char)
    requires
        m <= args.len(),
        forall|i: int| 0 <= i < args.len() ==> !(#[trigger] args[i]@).contains(c),
    ensures
        prefixed_name(args, m) matches Some(name) ==> !name.contains(c),
    decreases m,
{
    if m > 0 {
        lemma_prefixed_name_without(args, (m - 1) as nat, c);
        if prefixed_name(args, (m - 1) as nat).is_none() && crate_name_prefix().is_prefix_of(
            args[m - 1]@,
        ) {
            let a = args[m - 1]@;
            let name = a.skip(crate_name_prefix().len() as int);
            if name.contains(c) {
                let k = choose|k: int| 0 <= k < name.len() && name[k] == c;
                assert(a[k + crate_name_prefix().len()] == c);
                assert(a.contains(c));
            }
        }
    }
}

proof fn lemma_concat_without(a: Seq<char>, b: Seq<char>, c: char)
    requires
        !a.contains(c),
        !b.contains(c),
    ensures
        !(a + b).contains(c),
{
    if (a + b).contains(c) {
        let k = choose|k: int| 0 <= k < (a + b).len() && (a + b)[k] == c;
        if k < a.len() {
            assert(a[k] == c);
        } else {
            assert(b[k - a.len()] == c);
        }
    }
}

proof fn lemma_literal_without(s: Seq<char>, c: char)
    requires
        forall|k: int| 0 <= k < s.len() ==> s[k] != c,
    ensures
        !s.contains(c),
{
}

/// A build is named on one line: where no argument and not the package holds a line ending, the
/// label holds none either.
pub proof fn lemma_label_is_one_line(args: Seq<String>, package: Option<Seq<char>>, test_harness: bool)
    requires
        forall|i: int| 0 <= i < args.len() ==> !(#[trigger] args[i]@).contains('\n'),
        package matches Some(p) ==> !p.contains('\n'),
    ensures
        !label_of(crate_name_of(args), package, test_harness).contains('\n'),
{
    reveal_strlit("the test harness of `");
    reveal_strlit("`");
    reveal_strlit("a test harness");
    reveal_strlit("crate `");
    reveal_strlit("a crate");
    reveal_strlit(" in package `");
    lemma_literal_without("the test harness of `"@, '\n');
    lemma_literal_without("`"@, '\n');
    lemma_literal_without("a test harness"@, '\n');
    lemma_literal_without("crate `"@, '\n');
    lemma_literal_without("a crate"@, '\n');
    lemma_literal_without(" in package `"@, '\n');
    lemma_flag_position(args, args.len());
    lemma_prefixed_name_without(args, args.len(), '\n');
    let i = flag_position(args, args.len());
    if i >= 0 && i + 1 < args.len() {
        assert(!args[i + 1]@.contains('\n'));
    }
    let head = match (test_harness, crate_name_of(args)) {
        (true, Some(c)) => "the test harness of `"@ + c + "`"@,
        (true, None) => "a test harness"@,
        (false, Some(c)) => "crate `"@ + c + "`"@,
        (false, None) => "a crate"@,
    };
    match crate_name_of(args) {
        Some(c) => {
            lemma_concat_without("the test harness of `"@, c, '\n');
            lemma_concat_without("the test harness of `"@ + c, "`"@, '\n');
            lemma_concat_without("crate `"@, c, '\n');
            lemma_concat_without("crate `"@ + c, "`"@, '\n');
        },
        None => {},
    }
    assert(!head.contains('\n'));
    match package {
        Some(p) => {
            lemma_concat_without(head, " in package `"@, '\n');
            lemma_concat_without(head + " in package `"@, p, '\n');
            lemma_concat_without(head + " in package `"@ + p, "`"@, '\n');
        },
        None => {},
    }
}

} // verus!
