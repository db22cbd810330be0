//! The steps of one package creation: the base structure, the profile address,
//! the substitution context, the manifest, and the template subtrees to render.

use vstd::prelude::*;
use crate::casing::{snake_of, to_snake};
use vstd::utf8::is_ascii_chars;
use crate::package::{PackageDir, ScaffoldError};
use crate::paths::{join, join_path};
use crate::substitute::{SubstitutionContext, str_replace_position, substitute};
use crate::text::{CharClass, chars_of, find_from, find_seq, push_all, starts_with, string_of, strip, strip_front, strip_range, tail_of};

verus! {

/// Where the templates are fetched from when no local copy exists.
pub const TEMPLATE_URL: &'static str = "https://github.com/mkurnikov/aptos-templates.git";

/// The name of the local copy of the templates, under the temporary directory.
pub const TEMPLATE_CACHE_NAME: &'static str = "aptos_templates";

/// The address substituted where no profile address is available.
pub const PLACEHOLDER_ADDRESS: &'static str = "_";

/// The manifest of every new package, before substitution.
pub const MANIFEST_TEMPLATE: &'static str = "[package]\nname = \"{{package_name}}\"\nversion = \"1.0.0\"\nauthors = []\n\n[addresses]\n{{package_lowercase_name}} = \"{{default_address}}\"\n\n[dev-addresses]\n\n[dev-dependencies]\n";

/// The manifest's file name.
pub const MANIFEST_NAME: &'static str = "Move.toml";

/// A manifest that names this path already depends on the framework.
pub const FRAMEWORK_MARKER: &'static str = "aptos-move/framework/aptos-framework";

/// The framework dependency appended to a manifest that lacks it.
pub const FRAMEWORK_DEPENDENCY: &'static str = "\n\n[dependencies.AptosFramework]\ngit = \"https://github.com/aptos-labs/aptos-core.git\"\nrev = \"main\"\nsubdir = \"aptos-move/framework/aptos-framework\"\n";

/// The header of the manifest's address section.
pub const ADDRESSES_HEADER: &'static str = "[addresses]";

/// The line that names the coin example's address, before the address.
pub const COIN_ADDRESS_KEY: &'static str = "coin_address = \"";

/// The snake-case form of a package name; a name with a non-ASCII character is
/// kept as it is.
pub open spec fn lowercase_name(name: Seq<char>) -> Seq<char> {
    if is_ascii_chars(name) {
        snake_of(name)
    } else {
        name
    }
}

/// The context for a package: its name, its snake-case name, and its address
/// under both `default_address` and `address`.
pub open spec fn package_context(name: Seq<char>, address: Seq<char>) -> Seq<(Seq<char>, Seq<char>)> {
    seq![
        ("package_name"@, name),
        ("package_lowercase_name"@, lowercase_name(name)),
        ("default_address"@, address),
        ("address"@, address),
    ]
}

/// `toml` with the framework dependency appended unless it names the framework.
pub open spec fn with_framework(toml: Seq<char>) -> Seq<char> {
    if find_from(toml, FRAMEWORK_MARKER@, 0) is Some {
        toml
    } else {
        toml + FRAMEWORK_DEPENDENCY@
    }
}

/// `toml` with a `coin_address` line for `address`: right after the first address
/// section header, or in a new address section at the end.
pub open spec fn with_coin_address(toml: Seq<char>, address: Seq<char>) -> Seq<char> {
    let line = COIN_ADDRESS_KEY@ + address + seq!['"'];
    match find_from(toml, ADDRESSES_HEADER@, 0) {
        Some(p) => {
            let at = p + ADDRESSES_HEADER@.len();
            toml.take(at) + seq!['\n'] + line + seq!['\n'] + toml.skip(at)
        },
        None => toml + seq!['\n', '\n'] + ADDRESSES_HEADER@ + seq!['\n'] + line + seq!['\n'],
    }
}

/// The manifest of a package: the template substituted through `ctx`, with the
/// framework dependency, and with the coin example's address where it is added.
pub open spec fn manifest_of(ctx: Seq<(Seq<char>, Seq<char>)>, add_coin: bool, address: Seq<char>) -> Seq<
    char,
> {
    let t = with_framework(substitute(MANIFEST_TEMPLATE@, ctx));
    if add_coin {
        with_coin_address(t, address)
    } else {
        t
    }
}

/// The address to substitute: the placeholder where the profile initializer did
/// not run, else the one it recorded; an error where it recorded none.
pub fn profile_address(run_init: bool, recorded: Option<String>) -> (r: Result<String, ScaffoldError>)
    ensures
        !run_init ==> (r matches Ok(a) && a@ == PLACEHOLDER_ADDRESS@),
        run_init ==> match recorded {
            Some(a) => r == Ok::<String, ScaffoldError>(a),
            None => r matches Err(ScaffoldError::ProfileInitError { .. }),
        },
{
    if !run_init {
        return Ok(PLACEHOLDER_ADDRESS.to_owned());
    }
    match recorded {
        Some(a) => Ok(a),
        None => Err(
            ScaffoldError::ProfileInitError {
                reason: "the address is not specified in the profile `default`".to_owned(),
            },
        ),
    }
}

impl SubstitutionContext {
    /// The context for a package named `name` whose address is `address`.
    pub fn for_package(name: &str, address: &str) -> (r: SubstitutionContext)
        ensures
            r@ == package_context(name@, address@),
    {
        let lower = if name.is_ascii() {
            to_snake(name)
        } else {
            name.to_owned()
        };
        let mut ctx = SubstitutionContext::new();
        ctx.insert("package_name", name);
        ctx.insert("package_lowercase_name", lower.as_str());
        ctx.insert("default_address", address);
        ctx.insert("address", address);
        assert(ctx@ =~= package_context(name@, address@));
        ctx
    }
}

/// `toml` with the framework dependency appended unless it names the framework.
pub fn add_framework_dependency(toml: &str) -> (r: String)
    ensures
        r@ == with_framework(toml@),
{
    let t = chars_of(toml);
    let m = chars_of(FRAMEWORK_MARKER);
    match find_seq(&t, &m) {
        Some(_) => string_of(&t),
        None => {
            let mut out = t;
            let d = chars_of(FRAMEWORK_DEPENDENCY);
            push_all(&mut out, &d);
            string_of(&out)
        },
    }
}

/// `toml` with a `coin_address` line for `address`.
pub fn add_coin_address(toml: &str, address: &str) -> (r: String)
    ensures
        r@ == with_coin_address(toml@, address@),
{
    let t = chars_of(toml);
    let tl = t.len();
    let h = chars_of(ADDRESSES_HEADER);
    let mut line = chars_of(COIN_ADDRESS_KEY);
    let a = chars_of(address);
    push_all(&mut line, &a);
    line.push('"');
    let ghost lv = COIN_ADDRESS_KEY@ + address@ + seq!['"'];
    assert(line@ =~= lv);
    match find_seq(&t, &h) {
        Some(p) => {
            proof {
                crate::text::lemma_find_from_some(t@, h@, 0);
            }
            assert(p + h@.len() <= tl);
            let at = p + h.len();
            let mut out: Vec<char> = Vec::new();
            let mut i: usize = 0;
            while i < at
                invariant
                    at <= t@.len(),
                    i <= at,
                    out@ == t@.take(i as int),
                decreases at - i,
            {
                out.push(t[i]);
                i = i + 1;
                assert(out@ =~= t@.take(i as int));
            }
            out.push('\n');
            push_all(&mut out, &line);
            out.push('\n');
            let rest = crate::text::tail_of(&t, at);
            push_all(&mut out, &rest);
            assert(out@ =~= t@.take(at as int) + seq!['\n'] + lv + seq!['\n'] + t@.skip(at as int));
            string_of(&out)
        },
        None => {
            let mut out = t;
            out.push('\n');
            out.push('\n');
            push_all(&mut out, &h);
            out.push('\n');
            push_all(&mut out, &line);
            out.push('\n');
            assert(out@ =~= toml@ + seq!['\n', '\n'] + ADDRESSES_HEADER@ + seq!['\n'] + lv + seq!['\n']);
            string_of(&out)
        },
    }
}

/// The default package sources, in the template root.
pub const DEFAULT_SOURCES: &'static str = "_default/sources";

/// The default package tests, in the template root.
pub const DEFAULT_TESTS: &'static str = "_default/tests";

/// The coin example's module sources, in the template root.
pub const COIN_SOURCES: &'static str = "_coin/sources";

/// The coin example's tests, in the template root.
pub const COIN_TESTS: &'static str = "_coin/tests";

/// The dApp example, in the template root.
pub const DAPP_APP: &'static str = "_typescript/js";

/// A template subtree, relative to the template root, and the directory it is
/// rendered into.
pub struct TemplateCopy {
    pub template: String,
    pub dest: String,
}

pub open spec fn copies_view(cs: Seq<TemplateCopy>) -> Seq<(Seq<char>, Seq<char>)> {
    cs.map_values(|c: TemplateCopy| (c.template@, c.dest@))
}

/// The subtrees to render into the package at `root` for the selected variants:
/// none where no variant is selected; else the default sources and tests first,
/// then those of each selected variant.
pub open spec fn copies_of(root: Seq<char>, add_coin: bool, add_dapp: bool) -> Seq<(Seq<char>, Seq<char>)> {
    (if add_coin || add_dapp {
        seq![(DEFAULT_SOURCES@, join(root, "sources"@)), (DEFAULT_TESTS@, join(root, "tests"@))]
    } else {
        seq![]
    }) + (if add_coin {
        seq![(COIN_SOURCES@, join(root, "sources"@)), (COIN_TESTS@, join(root, "tests"@))]
    } else {
        seq![]
    }) + (if add_dapp {
        seq![(DAPP_APP@, join(root, "js"@))]
    } else {
        seq![]
    })
}

/// The directories that every package at `root` starts with, in the order they are
/// created: the root itself, `sources`, `tests`, and `js` for the dApp.
pub open spec fn base_dirs_of(root: Seq<char>, add_dapp: bool) -> Seq<Seq<char>> {
    seq![root, join(root, "sources"@), join(root, "tests"@)] + (if add_dapp {
        seq![join(root, "js"@)]
    } else {
        seq![]
    })
}

/// What to write once the base structure and the profile are in place.
pub struct RenderPlan {
    /// Where the manifest goes.
    pub manifest_path: String,
    /// The manifest's content.
    pub manifest: String,
    /// The template subtrees to render, in order; none means no template is needed.
    pub copies: Vec<TemplateCopy>,
    /// The context that paths and contents are substituted through.
    pub context: SubstitutionContext,
}

/// The directories to create for a package, in order.
pub fn base_structure(dir: &PackageDir, add_dapp: bool) -> (r: Vec<String>)
    ensures
        r@.map_values(|d: String| d@) == base_dirs_of(dir@, add_dapp),
{
    let root = dir.as_str();
    let mut r: Vec<String> = Vec::new();
    r.push(root.to_owned());
    r.push(join_path(root, "sources"));
    r.push(join_path(root, "tests"));
    if add_dapp {
        r.push(join_path(root, "js"));
    }
    assert(r@.map_values(|d: String| d@) =~= base_dirs_of(dir@, add_dapp));
    r
}

/// The manifest for a package with context `ctx`.
pub fn package_manifest(ctx: &SubstitutionContext, add_coin: bool, address: &str) -> (r: String)
    ensures
        r@ == manifest_of(ctx@, add_coin, address@),
{
    let base = str_replace_position(MANIFEST_TEMPLATE, ctx);
    let t = add_framework_dependency(base.as_str());
    if add_coin {
        add_coin_address(t.as_str(), address)
    } else {
        t
    }
}

/// What to render into the package at `dir` named `package_name` with address
/// `address`, for the selected variants.
pub fn render_steps(
    dir: &PackageDir,
    package_name: &str,
    add_coin: bool,
    add_dapp: bool,
    address: &str,
) -> (r: RenderPlan)
    ensures
        r.context@ == package_context(package_name@, address@),
        r.manifest_path@ == join(dir@, MANIFEST_NAME@),
        r.manifest@ == manifest_of(package_context(package_name@, address@), add_coin, address@),
        copies_view(r.copies@) == copies_of(dir@, add_coin, add_dapp),
        r.copies@.len() == 0 <==> !add_coin && !add_dapp,
{
    let context = SubstitutionContext::for_package(package_name, address);
    let manifest = package_manifest(&context, add_coin, address);
    let root = dir.as_str();
    let mut copies: Vec<TemplateCopy> = Vec::new();
    if add_coin || add_dapp {
        copies.push(TemplateCopy { template: DEFAULT_SOURCES.to_owned(), dest: join_path(root, "sources") });
        copies.push(TemplateCopy { template: DEFAULT_TESTS.to_owned(), dest: join_path(root, "tests") });
    }
    if add_coin {
        copies.push(TemplateCopy { template: COIN_SOURCES.to_owned(), dest: join_path(root, "sources") });
        copies.push(TemplateCopy { template: COIN_TESTS.to_owned(), dest: join_path(root, "tests") });
    }
    if add_dapp {
        copies.push(TemplateCopy { template: DAPP_APP.to_owned(), dest: join_path(root, "js") });
    }
    assert(copies_view(copies@) =~= copies_of(dir@, add_coin, add_dapp));
    RenderPlan { manifest_path: join_path(root, MANIFEST_NAME), manifest, copies, context }
}

/// The local copy of the templates under the temporary directory `temp_dir`.
pub fn template_cache_dir(temp_dir: &str) -> (r: String)
    ensures
        r@ == join(temp_dir@, TEMPLATE_CACHE_NAME@),
{
    join_path(temp_dir, TEMPLATE_CACHE_NAME)
}

/// Where to fetch the templates from: nowhere once a local copy exists, which is
/// then used as it is.
pub fn template_fetch(cache_exists: bool) -> (r: Option<&'static str>)
    ensures
        r is Some <==> !cache_exists,
        r matches Some(u) ==> u@ == TEMPLATE_URL@,
{
    if cache_exists {
        None
    } else {
        Some(TEMPLATE_URL)
    }
}

/// The key of the account line in a profile configuration.
pub const ACCOUNT_KEY: &'static str = "account:";

/// The index of the first line break of `s`, or its length where it has none.
pub open spec fn line_end(s: Seq<char>) -> int
    decreases s.len(),
{
    if s.len() == 0 {
        0
    } else if s[0] == '\n' {
        0
    } else {
        1 + line_end(s.drop_first())
    }
}

/// An address written as a hex literal: `0x` put in front unless it is there.
pub open spec fn hex_literal(a: Seq<char>) -> Seq<char> {
    if a.len() >= 2 && a[0] == '0' && a[1] == 'x' {
        a
    } else {
        seq!['0', 'x'] + a
    }
}

/// The line that opens the default profile's section, once trimmed.
pub const DEFAULT_PROFILE: &'static str = "default:";

/// The number of white-space characters that begin `raw`.
pub open spec fn indent_of(raw: Seq<char>) -> int {
    raw.len() - strip_front(raw, CharClass::White).len()
}

/// Whether a trimmed line reads `account:`.
pub open spec fn is_account_line(line: Seq<char>) -> bool {
    line.len() >= ACCOUNT_KEY@.len() && line.take(ACCOUNT_KEY@.len() as int) == ACCOUNT_KEY@
}

/// The account that an account line gives: its value trimmed, as a hex literal;
/// none where the value is empty.
pub open spec fn account_value(line: Seq<char>) -> Option<Seq<char>> {
    let v = strip(line.skip(ACCOUNT_KEY@.len() as int), CharClass::White);
    if v.len() == 0 {
        None
    } else {
        Some(hex_literal(v))
    }
}

/// The account found in `config`, read line by line. Outside the default profile
/// (`section` none) a line reading `default:` opens it, at its indentation. Inside
/// it, a non-blank line indented no deeper closes it and ends the search, and the
/// first account line gives the account.
pub open spec fn account_in(config: Seq<char>, section: Option<int>) -> Option<Seq<char>>
    decreases config.len(),
    via account_in_decreases
{
    let n = line_end(config);
    let raw = config.take(n);
    let line = strip(raw, CharClass::White);
    match section {
        None => {
            let next = if line == DEFAULT_PROFILE@ {
                Some(indent_of(raw))
            } else {
                None
            };
            if n < config.len() {
                account_in(config.skip(n + 1), next)
            } else {
                None
            }
        },
        Some(d) => if line.len() > 0 && indent_of(raw) <= d {
            None
        } else if is_account_line(line) {
            account_value(line)
        } else if n < config.len() {
            account_in(config.skip(n + 1), Some(d))
        } else {
            None
        },
    }
}

/// The account that a profile configuration records for its default profile.
pub open spec fn recorded_account_of(config: Seq<char>) -> Option<Seq<char>> {
    account_in(config, None)
}

#[via_fn]
proof fn account_in_decreases(config: Seq<char>, section: Option<int>) {
    lemma_line_end(config);
}

proof fn lemma_line_end(s: Seq<char>)
    ensures
        0 <= line_end(s) <= s.len(),
        line_end(s) < s.len() ==> s[line_end(s)] == '\n',
        forall|i: int| 0 <= i < line_end(s) ==> s[i] != '\n',
    decreases s.len(),
{
    if s.len() > 0 && s[0] != '\n' {
        lemma_line_end(s.drop_first());
        assert forall|i: int| 0 <= i < line_end(s) implies s[i] != '\n' by {
            if i > 0 {
                assert(s[i] == s.drop_first()[i - 1]);
            }
        }
    }
}

proof fn lemma_line_end_at(s: Seq<char>, n: int)
    requires
        0 <= n <= s.len(),
        n == s.len() || s[n] == '\n',
        forall|i: int| 0 <= i < n ==> s[i] != '\n',
    ensures
        line_end(s) == n,
    decreases s.len(),
{
    if s.len() > 0 && s[0] != '\n' {
        assert forall|i: int| 0 <= i < n - 1 implies s.drop_first()[i] != '\n' by {
            assert(s.drop_first()[i] == s[i + 1]);
        }
        if n < s.len() {
            assert(s.drop_first()[n - 1] == s[n]);
        }
        lemma_line_end_at(s.drop_first(), n - 1);
    }
}

/// The account of an account line.
fn account_value_of(l: &Vec<char>) -> (r: Option<String>)
    requires
        is_account_line(l@),
    ensures
        match r {
            Some(a) => account_value(l@) == Some(a@),
            None => account_value(l@) is None,
        },
{
    let key_len = ACCOUNT_KEY.unicode_len();
    let after = tail_of(l, key_len);
    let (a, b) = strip_range(&after, 0, after.len(), CharClass::White);
    assert(after@.subrange(0, after@.len() as int) =~= after@);
    if a == b {
        return None;
    }
    let mut out: Vec<char> = Vec::new();
    if !(b - a >= 2 && after[a] == '0' && after[a + 1] == 'x') {
        out.push('0');
        out.push('x');
    }
    let mut k: usize = a;
    let ghost pre = out@;
    while k < b
        invariant
            a <= k <= b <= after@.len(),
            out@ == pre + after@.subrange(a as int, k as int),
        decreases b - k,
    {
        out.push(after[k]);
        k = k + 1;
        assert(out@ =~= pre + after@.subrange(a as int, k as int));
    }
    proof {
        let val = after@.subrange(a as int, b as int);
        if val.len() >= 2 && val[0] == '0' && val[1] == 'x' {
            assert(pre =~= Seq::<char>::empty());
            assert(out@ =~= val);
        } else {
            assert(out@ =~= seq!['0', 'x'] + val);
        }
    }
    Some(string_of(&out))
}

/// The account that a profile configuration records for its default profile.
pub fn recorded_account(config: &str) -> (r: Option<String>)
    ensures
        match r {
            Some(a) => recorded_account_of(config@) == Some(a@),
            None => recorded_account_of(config@) is None,
        },
{
    let v = chars_of(config);
    let key = chars_of(ACCOUNT_KEY);
    let dp = chars_of(DEFAULT_PROFILE);
    let mut section: Option<usize> = None;
    let mut start: usize = 0;
    assert(v@.skip(0) =~= v@);
    loop
        invariant
            start <= v@.len(),
            key@ == ACCOUNT_KEY@,
            dp@ == DEFAULT_PROFILE@,
            recorded_account_of(config@) == account_in(
                v@.skip(start as int),
                match section {
                    Some(d) => Some(d as int),
                    None => None,
                },
            ),
            v@ == config@,
        decreases v.len() + 1 - start,
    {
        let ghost rest = v@.skip(start as int);
        let mut end: usize = start;
        while end < v.len() && v[end] != '\n'
            invariant
                start <= end <= v@.len(),
                forall|i: int| start <= i < end ==> v@[i] != '\n',
            decreases v.len() - end,
        {
            end = end + 1;
        }
        let ghost raw = v@.subrange(start as int, end as int);
        proof {
            lemma_line_end_at(rest, end - start);
            assert(rest.take(end - start) =~= raw);
        }
        let mut f: usize = start;
        assert(v@.subrange(f as int, end as int) =~= raw);
        while f < end && CharClass::White.test(v[f])
            invariant
                start <= f <= end <= v@.len(),
                raw == v@.subrange(start as int, end as int),
                strip_front(raw, CharClass::White) == strip_front(
                    v@.subrange(f as int, end as int),
                    CharClass::White,
                ),
            decreases end - f,
        {
            assert(v@.subrange(f as int, end as int).drop_first() =~= v@.subrange(f + 1, end as int));
            f = f + 1;
        }
        let indent = f - start;
        assert(indent == indent_of(raw));
        let (lo, hi) = strip_range(&v, start, end, CharClass::White);
        let mut l: Vec<char> = Vec::new();
        let mut i: usize = lo;
        while i < hi
            invariant
                lo <= i <= hi <= v@.len(),
                l@ == v@.subrange(lo as int, i as int),
            decreases hi - i,
        {
            l.push(v[i]);
            i = i + 1;
            assert(l@ =~= v@.subrange(lo as int, i as int));
        }
        assert(l@ == strip(raw, CharClass::White));
        match section {
            None => {
                let opens = l.len() == dp.len() && starts_with(&l, &dp);
                proof {
                    if opens {
                        assert(l@.take(dp@.len() as int) =~= l@);
                    }
                    if l@ == dp@ {
                        assert(l@.take(dp@.len() as int) =~= l@);
                    }
                }
                if opens {
                    section = Some(indent);
                }
            },
            Some(d) => {
                if l.len() > 0 && indent <= d {
                    return None;
                }
                if starts_with(&l, &key) {
                    return account_value_of(&l);
                }
            },
        }
        if end == v.len() {
            return None;
        }
        proof {
            assert(rest.skip(end - start + 1) =~= v@.skip(end + 1));
        }
        start = end + 1;
    }
}

} // verus!
