use vstd::prelude::*;

use crate::text::{
    after_last, after_last_char, chars_equal, strip_prefix_chars, trim, trimmed, boundary_chars, char_is_alphanumeric, char_utf8_width, chars_in_bytes, chars_of, copy_prefix,
    is_alphanumeric_char, is_boundary, lemma_utf8_len_is_encoded_len, lemma_utf8_len_take_mono, lemma_utf8_len_take_next,
    lowercase_of, string_from_chars, strip_leading, strip_leading_chars, strip_trailing,
    strip_trailing_chars, to_lowercase, utf8_len,
};

verus! {

/// Slugs are cut to at most this many bytes.
pub const SLUG_MAX_BYTES: usize = 40;

/// The character a slug keeps for `c`: `c` itself when alphanumeric, else `-`.
pub open spec fn slug_char(c: char) -> char {
    if is_alphanumeric_char(c) {
        c
    } else {
        '-'
    }
}

/// `s` with every run of `-` shortened to a single `-`.
pub open spec fn collapse_hyphens(s: Seq<char>) -> Seq<char>
    decreases s.len(),
{
    if s.len() == 0 {
        s
    } else {
        let r = collapse_hyphens(s.drop_last());
        if s.last() == '-' && r.len() > 0 && r.last() == '-' {
            r
        } else {
            r.push(s.last())
        }
    }
}

/// The characters a slug is made from: `text` lowercased, with every
/// non-alphanumeric character turned into `-`.
pub open spec fn slug_marks(text: Seq<char>) -> Seq<char> {
    lowercase_of(text).map_values(|c: char| slug_char(c))
}

/// Runs of `-` collapsed, then `-` trimmed from both ends.
pub open spec fn trim_collapse(m: Seq<char>) -> Seq<char> {
    strip_trailing(strip_leading(collapse_hyphens(m), '-'), '-')
}

/// `b` can be cut at `SLUG_MAX_BYTES` bytes: it is short enough, or that many bytes
/// end on a character boundary.
pub open spec fn can_cut(b: Seq<char>) -> bool {
    utf8_len(b) <= SLUG_MAX_BYTES || is_boundary(b, SLUG_MAX_BYTES as nat)
}

/// `b`, or, when it is longer than `SLUG_MAX_BYTES` bytes, its first
/// `SLUG_MAX_BYTES` bytes with trailing `-` removed.
pub open spec fn cut_slug(b: Seq<char>) -> Seq<char> {
    if utf8_len(b) <= SLUG_MAX_BYTES {
        b
    } else {
        strip_trailing(b.take(chars_in_bytes(b, SLUG_MAX_BYTES as nat)), '-')
    }
}

/// The slug before any cut.
pub open spec fn slug_body(text: Seq<char>) -> Seq<char> {
    trim_collapse(slug_marks(text))
}

/// `slugify` can cut the slug of `text` (where it cannot, the original panics).
pub open spec fn slug_cut_ok(text: Seq<char>) -> bool {
    can_cut(slug_body(text))
}

/// The slug of `text`.
pub open spec fn slugify_spec(text: Seq<char>) -> Seq<char> {
    cut_slug(slug_body(text))
}

/// Whether the UTF-8 length of `v` is at most `n` bytes.
pub fn fits_in_bytes(v: &Vec<char>, n: usize) -> (r: bool)
    ensures
        r == (utf8_len(v@) <= n),
{
    let mut total: usize = 0;
    let mut i: usize = 0;
    assert(v@.take(0) =~= Seq::<char>::empty());
    while i < v.len()
        invariant
            i <= v.len(),
            total <= n,
            total == utf8_len(v@.take(i as int)),
        decreases v.len() - i,
    {
        proof {
            lemma_utf8_len_take_next(v@, i as int);
        }
        let w = char_utf8_width(v[i]);
        if w > n - total {
            proof {
                assert(v@.take(v.len() as int) =~= v@);
                if i + 1 < v.len() {
                    lemma_utf8_len_take_mono(v@, i + 1, v.len() as int);
                }
            }
            return false;
        }
        total = total + w;
        i = i + 1;
    }
    assert(v@.take(v.len() as int) =~= v@);
    true
}

/// Lowercases `text` and turns every non-alphanumeric character into `-`.
fn slug_marks_chars(text: &str) -> (r: Vec<char>)
    ensures
        r@ == slug_marks(text@),
{
    let lower = to_lowercase(text);
    let lc = chars_of(lower.as_str());
    let ghost mapped = lc@.map_values(|c: char| slug_char(c));
    let mut slug: Vec<char> = Vec::new();
    for i in 0..lc.len()
        invariant
            mapped == lc@.map_values(|c: char| slug_char(c)),
            slug@ == mapped.take(i as int),
    {
        let c = lc[i];
        if char_is_alphanumeric(c) {
            slug.push(c);
        } else {
            slug.push('-');
        }
        assert(mapped.take(i + 1) =~= mapped.take(i as int).push(mapped[i as int]));
    }
    assert(mapped.take(lc.len() as int) =~= mapped);
    slug
}

/// Collapses runs of `-` and trims `-` from both ends.
pub fn trim_collapse_chars(slug: &Vec<char>) -> (r: Vec<char>)
    ensures
        r@ == trim_collapse(slug@),
{
    let mut result: Vec<char> = Vec::new();
    let mut prev_hyphen = false;
    assert(slug@.take(0) =~= Seq::<char>::empty());
    for i in 0..slug.len()
        invariant
            result@ == collapse_hyphens(slug@.take(i as int)),
            prev_hyphen == (result@.len() > 0 && result@.last() == '-'),
    {
        let c = slug[i];
        assert(slug@.take(i + 1).drop_last() =~= slug@.take(i as int));
        if c == '-' {
            if !prev_hyphen {
                result.push('-');
            }
            prev_hyphen = true;
        } else {
            result.push(c);
            prev_hyphen = false;
        }
    }
    assert(slug@.take(slug.len() as int) =~= slug@);
    let front = strip_leading_chars(&result, '-');
    strip_trailing_chars(&front, '-')
}

/// The slug made from already-marked characters (see `slug_marks`): runs of `-`
/// collapsed, `-` trimmed, and the result cut to `SLUG_MAX_BYTES` bytes.
pub fn slug_from_marks(marks: &Vec<char>) -> (r: String)
    requires
        can_cut(trim_collapse(marks@)),
    ensures
        r@ == cut_slug(trim_collapse(marks@)),
{
    let body = trim_collapse_chars(marks);
    if fits_in_bytes(&body, SLUG_MAX_BYTES) {
        string_from_chars(&body)
    } else {
        let k = match boundary_chars(&body, SLUG_MAX_BYTES) {
            Some(k) => k,
            None => {
                proof {
                    assert(false);
                }
                0
            },
        };
        let cut = copy_prefix(&body, k);
        let trimmed = strip_trailing_chars(&cut, '-');
        string_from_chars(&trimmed)
    }
}

/// Whether `slugify` can cut the slug of `text` (see `slug_cut_ok`).
pub fn slug_fits(text: &str) -> (r: bool)
    ensures
        r == slug_cut_ok(text@),
{
    let body = trim_collapse_chars(&slug_marks_chars(text));
    if fits_in_bytes(&body, SLUG_MAX_BYTES) {
        true
    } else {
        boundary_chars(&body, SLUG_MAX_BYTES).is_some()
    }
}

/// Slugify a description for use in branch names.
pub fn slugify(text: &str) -> (r: String)
    requires
        slug_cut_ok(text@),
    ensures
        r@ == slugify_spec(text@),
{
    let marks = slug_marks_chars(text);
    slug_from_marks(&marks)
}

/// `slugify` where it can cut the slug; `None` for the texts on which it cannot.
pub fn try_slugify(text: &str) -> (r: Option<String>)
    ensures
        r is Some <==> slug_cut_ok(text@),
        r matches Some(s) ==> s@ == slugify_spec(text@),
{
    if slug_fits(text) {
        Some(slugify(text))
    } else {
        None
    }
}

} // verus!

verus! {

// ---------------------------------------------------------------------------
// Shape of a slug.
// ---------------------------------------------------------------------------

/// Characters `i` and `i + 1` of `s` are both `-`.
pub open spec fn hyphen_pair(s: Seq<char>, i: int) -> bool {
    s[i] == '-' && s[i + 1] == '-'
}

/// `s` never holds two `-` in a row.
pub open spec fn no_double_hyphen(s: Seq<char>) -> bool {
    forall|i: int| 0 <= i && i + 1 < s.len() ==> !#[trigger] hyphen_pair(s, i)
}

/// Every character of `s` is `-` or alphanumeric.
pub open spec fn slug_alphabet(s: Seq<char>) -> bool {
    forall|i: int| 0 <= i < s.len() ==> #[trigger] s[i] == '-' || is_alphanumeric_char(s[i])
}

proof fn lemma_collapse_shape(m: Seq<char>)
    ensures
        no_double_hyphen(collapse_hyphens(m)),
        slug_alphabet(m) ==> slug_alphabet(collapse_hyphens(m)),
        collapse_hyphens(m).len() <= m.len(),
    decreases m.len(),
{
    if m.len() > 0 {
        let r = collapse_hyphens(m.drop_last());
        lemma_collapse_shape(m.drop_last());
        if slug_alphabet(m) {
            assert forall|i: int| 0 <= i < m.drop_last().len() implies #[trigger] m.drop_last()[i] == '-'
                || is_alphanumeric_char(m.drop_last()[i]) by {
                assert(m.drop_last()[i] == m[i]);
            }
            assert(m[m.len() - 1] == '-' || is_alphanumeric_char(m[m.len() - 1]));
        }
        if !(m.last() == '-' && r.len() > 0 && r.last() == '-') {
            let p = r.push(m.last());
            assert forall|i: int| 0 <= i && i + 1 < p.len() implies !#[trigger] hyphen_pair(p, i) by {
                if i + 1 < r.len() {
                    assert(!hyphen_pair(r, i));
                }
            }
            if slug_alphabet(m) {
                assert forall|i: int| 0 <= i < p.len() implies #[trigger] p[i] == '-' || is_alphanumeric_char(p[i]) by {
                    if i < r.len() {
                        assert(p[i] == r[i]);
                    }
                }
            }
        }
    }
}

/// `strip_leading(s, c)` is a suffix of `s`; gives where it starts.
proof fn lemma_strip_leading_suffix(s: Seq<char>, c: char) -> (k: int)
    ensures
        0 <= k <= s.len(),
        strip_leading(s, c) == s.skip(k),
        strip_leading(s, c).len() > 0 ==> strip_leading(s, c)[0] != c,
    decreases s.len(),
{
    if s.len() > 0 && s[0] == c {
        let k = lemma_strip_leading_suffix(s.drop_first(), c);
        assert(s.drop_first().skip(k) =~= s.skip(k + 1));
        k + 1
    } else {
        assert(s.skip(0) =~= s);
        0
    }
}

/// `strip_trailing(s, c)` is a prefix of `s`; gives its length.
proof fn lemma_strip_trailing_prefix(s: Seq<char>, c: char) -> (k: int)
    ensures
        0 <= k <= s.len(),
        strip_trailing(s, c) == s.take(k),
        k > 0 ==> s[k - 1] != c,
    decreases s.len(),
{
    if s.len() > 0 && s.last() == c {
        let k = lemma_strip_trailing_prefix(s.drop_last(), c);
        assert(s.drop_last().take(k) =~= s.take(k));
        k
    } else {
        assert(s.take(s.len() as int) =~= s);
        s.len() as int
    }
}

proof fn lemma_subrange_shape(s: Seq<char>, a: int, b: int)
    requires
        0 <= a <= b <= s.len(),
    ensures
        no_double_hyphen(s) ==> no_double_hyphen(s.subrange(a, b)),
        slug_alphabet(s) ==> slug_alphabet(s.subrange(a, b)),
{
    let t = s.subrange(a, b);
    if no_double_hyphen(s) {
        assert forall|i: int| 0 <= i && i + 1 < t.len() implies !#[trigger] hyphen_pair(t, i) by {
            assert(!hyphen_pair(s, a + i));
        }
    }
    if slug_alphabet(s) {
        assert forall|i: int| 0 <= i < t.len() implies #[trigger] t[i] == '-' || is_alphanumeric_char(t[i]) by {
            assert(t[i] == s[a + i]);
        }
    }
}

proof fn lemma_marks_alphabet(text: Seq<char>)
    ensures
        slug_alphabet(slug_marks(text)),
{
    let m = slug_marks(text);
    assert forall|i: int| 0 <= i < m.len() implies #[trigger] m[i] == '-' || is_alphanumeric_char(m[i]) by {
        assert(m[i] == slug_char(lowercase_of(text)[i]));
    }
}

/// The shape of every slug: at most `SLUG_MAX_BYTES` bytes, no `-` at either end,
/// never two `-` in a row, and made only of `-` and alphanumeric characters.
pub proof fn lemma_slug_shape(text: Seq<char>)
    requires
        slug_cut_ok(text),
    ensures
        utf8_len(slugify_spec(text)) <= SLUG_MAX_BYTES,
        slugify_spec(text).len() > 0 ==> slugify_spec(text)[0] != '-' && slugify_spec(text).last() != '-',
        no_double_hyphen(slugify_spec(text)),
        slug_alphabet(slugify_spec(text)),
        vstd::utf8::encode_utf8(slugify_spec(text)).len() <= SLUG_MAX_BYTES,
{
    lemma_slug_shape_chars(text);
    lemma_utf8_len_is_encoded_len(slugify_spec(text));
}

proof fn lemma_slug_shape_chars(text: Seq<char>)
    requires
        slug_cut_ok(text),
    ensures
        utf8_len(slugify_spec(text)) <= SLUG_MAX_BYTES,
        slugify_spec(text).len() > 0 ==> slugify_spec(text)[0] != '-' && slugify_spec(text).last() != '-',
        no_double_hyphen(slugify_spec(text)),
        slug_alphabet(slugify_spec(text)),
{
    let m = slug_marks(text);
    let col = collapse_hyphens(m);
    lemma_marks_alphabet(text);
    lemma_collapse_shape(m);
    let lead = strip_leading(col, '-');
    let a = lemma_strip_leading_suffix(col, '-');
    assert(col.skip(a) =~= col.subrange(a, col.len() as int));
    lemma_subrange_shape(col, a, col.len() as int);
    let b = strip_trailing(lead, '-');
    let kb = lemma_strip_trailing_prefix(lead, '-');
    assert(lead.take(kb) =~= lead.subrange(0, kb));
    lemma_subrange_shape(lead, 0, kb);
    assert(b == slug_body(text));
    if b.len() > 0 {
        assert(b[0] == lead[0]);
    }
    if utf8_len(b) <= SLUG_MAX_BYTES {
        assert(slugify_spec(text) == b);
    } else {
        let k = chars_in_bytes(b, SLUG_MAX_BYTES as nat);
        assert(is_boundary(b, SLUG_MAX_BYTES as nat));
        assert(0 <= k <= b.len() && utf8_len(b.take(k)) == SLUG_MAX_BYTES);
        let t = b.take(k);
        assert(t =~= b.subrange(0, k));
        lemma_subrange_shape(b, 0, k);
        let r = strip_trailing(t, '-');
        let kr = lemma_strip_trailing_prefix(t, '-');
        assert(t.take(kr) =~= t.subrange(0, kr));
        lemma_subrange_shape(t, 0, kr);
        if kr < k {
            lemma_utf8_len_take_mono(t, kr, k);
            assert(t.take(k) =~= t);
        } else {
            assert(t.take(kr) =~= t);
        }
        if r.len() > 0 {
            assert(r[0] == t[0]);
            assert(t[0] == b[0]);
        }
    }
}

} // verus!

verus! {

// ---------------------------------------------------------------------------
// Detecting the default branch.
// ---------------------------------------------------------------------------

/// The git queries tried, in order, to find the default branch.
#[derive(Debug, Clone, Copy, PartialEq, Eq, Structural)]
pub enum BranchProbe {
    /// `git symbolic-ref refs/remotes/origin/HEAD`
    OriginHead,
    /// `git rev-parse --verify main`
    LocalMain,
    /// `git rev-parse --verify master`
    LocalMaster,
}

/// The next thing to do while detecting the default branch.
#[derive(Debug)]
pub enum BranchStep {
    /// Run this probe (in the repository root) and report how it went.
    Probe(BranchProbe),
    /// The default branch.
    Found(String),
    /// No probe found it.
    Undetected,
}

/// The arguments of `git` for a probe.
pub open spec fn probe_args_spec(p: BranchProbe) -> Seq<Seq<char>> {
    match p {
        BranchProbe::OriginHead => seq!["symbolic-ref"@, "refs/remotes/origin/HEAD"@],
        BranchProbe::LocalMain => seq!["rev-parse"@, "--verify"@, "main"@],
        BranchProbe::LocalMaster => seq!["rev-parse"@, "--verify"@, "master"@],
    }
}

/// Where a probe stands in the order they are tried.
pub open spec fn probe_rank(p: BranchProbe) -> int {
    match p {
        BranchProbe::OriginHead => 0,
        BranchProbe::LocalMain => 1,
        BranchProbe::LocalMaster => 2,
    }
}

/// The arguments of `git` for a probe.
pub fn probe_args(p: BranchProbe) -> (r: Vec<String>)
    ensures
        r@.map_values(|a: String| a@) == probe_args_spec(p),
{
    let r = match p {
        BranchProbe::OriginHead => vec!["symbolic-ref".to_owned(), "refs/remotes/origin/HEAD".to_owned()],
        BranchProbe::LocalMain => vec!["rev-parse".to_owned(), "--verify".to_owned(), "main".to_owned()],
        BranchProbe::LocalMaster => vec!["rev-parse".to_owned(), "--verify".to_owned(), "master".to_owned()],
    };
    assert(r@.map_values(|a: String| a@) =~= probe_args_spec(p));
    r
}

/// Detection starts by asking for the remote's HEAD.
pub fn default_branch_start() -> (r: BranchStep)
    ensures
        r == BranchStep::Probe(BranchProbe::OriginHead),
{
    BranchStep::Probe(BranchProbe::OriginHead)
}

/// The branch that `git symbolic-ref refs/remotes/origin/HEAD` names: the text after
/// `refs/remotes/origin/` (which may itself hold `/`, as in `release/1.0`); for an
/// output without that prefix, the text after its last `/`.
pub open spec fn remote_head_branch(out: Seq<char>) -> Seq<char> {
    let prefix = "refs/remotes/origin/"@;
    if prefix.len() <= out.len() && out.take(prefix.len() as int) == prefix {
        out.skip(prefix.len() as int)
    } else {
        after_last(out, '/')
    }
}

/// Detect the default branch (e.g. main, master), one probe at a time: given the
/// probe just run and its trimmed output (`None` when git failed), says what comes
/// next. The remote's HEAD names the branch (see `remote_head_branch`); failing
/// that, a local `main`, then a local `master`.
pub fn default_branch(probe: BranchProbe, output: Option<&str>) -> (r: BranchStep)
    ensures
        r matches BranchStep::Probe(next) ==> probe_rank(next) > probe_rank(probe),
        probe == BranchProbe::OriginHead ==> match output {
            Some(out) => if remote_head_branch(out@).len() > 0 {
                r matches BranchStep::Found(b) && b@ == remote_head_branch(out@)
            } else {
                r == BranchStep::Probe(BranchProbe::LocalMain)
            },
            None => r == BranchStep::Probe(BranchProbe::LocalMain),
        },
        probe == BranchProbe::LocalMain ==> match output {
            Some(_) => r matches BranchStep::Found(b) && b@ == "main"@,
            None => r == BranchStep::Probe(BranchProbe::LocalMaster),
        },
        probe == BranchProbe::LocalMaster ==> match output {
            Some(_) => r matches BranchStep::Found(b) && b@ == "master"@,
            None => r is Undetected,
        },
{
    match probe {
        BranchProbe::OriginHead => {
            if let Some(out) = output {
                let v = chars_of(out);
                let branch = match strip_prefix_chars(&v, "refs/remotes/origin/") {
                    Some(rest) => rest,
                    None => after_last_char(&v, '/'),
                };
                if branch.len() > 0 {
                    return BranchStep::Found(string_from_chars(&branch));
                }
            }
            BranchStep::Probe(BranchProbe::LocalMain)
        },
        BranchProbe::LocalMain => {
            if output.is_some() {
                BranchStep::Found("main".to_owned())
            } else {
                BranchStep::Probe(BranchProbe::LocalMaster)
            }
        },
        BranchProbe::LocalMaster => {
            if output.is_some() {
                BranchStep::Found("master".to_owned())
            } else {
                BranchStep::Undetected
            }
        },
    }
}

// ---------------------------------------------------------------------------
// Answers to prompts.
// ---------------------------------------------------------------------------

/// A confirmation: the trimmed, lowercased answer is `y` or `yes`.
pub open spec fn is_confirmation_spec(input: Seq<char>) -> bool {
    lowercase_of(trimmed(input)) == "y"@ || lowercase_of(trimmed(input)) == "yes"@
}

/// Whether an answer to a yes/no prompt confirms: `y` or `yes` in any case,
/// surrounding whitespace ignored.
pub fn is_confirmation(input: &str) -> (r: bool)
    ensures
        r == is_confirmation_spec(input@),
{
    let t = trim(input);
    let lower = to_lowercase(t);
    let lv = chars_of(lower.as_str());
    chars_equal(&lv, &chars_of("y")) || chars_equal(&lv, &chars_of("yes"))
}

} // verus!

verus! {

/// A slug is a fixed point of slugifying, provided lowercasing leaves the slug as
/// it is (a fact about Unicode lowercasing that nothing here states, so it is an
/// assumption of this law): slugifying a slug can cut it and gives it back.
pub proof fn lemma_slugify_idempotent(text: Seq<char>)
    requires
        slug_cut_ok(text),
        lowercase_of(slugify_spec(text)) == slugify_spec(text),
    ensures
        slug_cut_ok(slugify_spec(text)),
        slugify_spec(slugify_spec(text)) == slugify_spec(text),
{
    let s = slugify_spec(text);
    lemma_slug_shape_chars(text);
    let m = slug_marks(s);
    assert(m =~= s) by {
        assert forall|i: int| 0 <= i < s.len() implies #[trigger] m[i] == s[i] by {
            assert(s[i] == '-' || is_alphanumeric_char(s[i]));
        }
    }
    lemma_collapse_fixed(s);
    lemma_strip_leading_fixed(s);
    lemma_strip_trailing_fixed(s);
    assert(trim_collapse(m) == s);
}

proof fn lemma_collapse_fixed(s: Seq<char>)
    requires
        no_double_hyphen(s),
    ensures
        collapse_hyphens(s) == s,
    decreases s.len(),
{
    if s.len() > 0 {
        let d = s.drop_last();
        assert(no_double_hyphen(d)) by {
            assert forall|i: int| 0 <= i && i + 1 < d.len() implies !#[trigger] hyphen_pair(d, i) by {
                assert(!hyphen_pair(s, i));
            }
        }
        lemma_collapse_fixed(d);
        if s.len() >= 2 {
            assert(!hyphen_pair(s, s.len() - 2));
        }
        assert(d.push(s.last()) =~= s);
    }
}

proof fn lemma_strip_leading_fixed(s: Seq<char>)
    requires
        s.len() > 0 ==> s[0] != '-',
    ensures
        strip_leading(s, '-') == s,
{
}

proof fn lemma_strip_trailing_fixed(s: Seq<char>)
    requires
        s.len() > 0 ==> s.last() != '-',
    ensures
        strip_trailing(s, '-') == s,
{
}

} // verus!
