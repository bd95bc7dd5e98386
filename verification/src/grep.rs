//! A flag-driven line-matching engine: scan one or more named text sources
//! for lines matching a pattern, under combinable modifiers, and render the
//! results as an ordered sequence of formatted strings.

use vstd::prelude::*;

verus! {

use vstd::string::*;
use crate::decimal::{dec_digits, u64_to_string};
use crate::splitter::{spec_split_on, split_on};

/// The five independent boolean modifiers that alter matching and
/// formatting behaviour. Built once from option tokens, never mutated.
#[derive(Debug)]
pub struct Flags {
    pub print_line_number: bool,
    pub print_file_name_only: bool,
    pub case_insensitive: bool,
    pub invert_result: bool,
    pub match_entire_line: bool,
}

/// Whether some token of `tokens` reads exactly as `t`.
pub open spec fn has_token(tokens: Seq<&str>, t: Seq<char>) -> bool {
    exists|i: int| 0 <= i < tokens.len() && tokens[i]@ == t
}

/// Character-for-character equality of two string slices.
pub fn str_eq(a: &str, b: &str) -> (r: bool)
    ensures
        r == (a@ == b@),
{
    let na = a.unicode_len();
    let nb = b.unicode_len();
    if na != nb {
        return false;
    }
    let mut i: usize = 0;
    while i < na
        invariant
            na == a@.len(),
            na == b@.len(),
            i <= na,
            forall|j: int| 0 <= j < i ==> a@[j] == b@[j],
        decreases na - i,
    {
        if a.get_char(i) != b.get_char(i) {
            return false;
        }
        i += 1;
    }
    proof {
        assert(a@ =~= b@);
    }
    true
}

impl Flags {
    /// The neutral flag set: every modifier off.
    pub fn default_flags() -> (r: Self)
        ensures
            !r.print_line_number,
            !r.print_file_name_only,
            !r.case_insensitive,
            !r.invert_result,
            !r.match_entire_line,
    {
        Flags {
            print_file_name_only: false,
            print_line_number: false,
            case_insensitive: false,
            match_entire_line: false,
            invert_result: false,
        }
    }

    /// Build the flag set from option tokens. Each recognised token switches
    /// one modifier on; unrecognised tokens are ignored; order and
    /// duplication of tokens do not matter.
    pub fn new(flags: &[&str]) -> (r: Self)
        ensures
            r.print_line_number == has_token(flags@, "-n"@),
            r.print_file_name_only == has_token(flags@, "-l"@),
            r.case_insensitive == has_token(flags@, "-i"@),
            r.invert_result == has_token(flags@, "-v"@),
            r.match_entire_line == has_token(flags@, "-x"@),
    {
        let mut acc = Flags::default_flags();
        let n = flags.len();
        let mut i: usize = 0;
        while i < n
            invariant
                n == flags@.len(),
                i <= n,
                acc.print_line_number == (exists|j: int| 0 <= j < i && flags@[j]@ == "-n"@),
                acc.print_file_name_only == (exists|j: int| 0 <= j < i && flags@[j]@ == "-l"@),
                acc.case_insensitive == (exists|j: int| 0 <= j < i && flags@[j]@ == "-i"@),
                acc.invert_result == (exists|j: int| 0 <= j < i && flags@[j]@ == "-v"@),
                acc.match_entire_line == (exists|j: int| 0 <= j < i && flags@[j]@ == "-x"@),
            decreases n - i,
        {
            let f: &str = flags[i];
            if str_eq(f, "-n") {
                acc.print_line_number = true;
            }
            if str_eq(f, "-l") {
                acc.print_file_name_only = true;
            }
            if str_eq(f, "-i") {
                acc.case_insensitive = true;
            }
            if str_eq(f, "-v") {
                acc.invert_result = true;
            }
            if str_eq(f, "-x") {
                acc.match_entire_line = true;
            }
            i += 1;
        }
        acc
    }
}

/// Whether `needle` occurs contiguously somewhere in `hay`.
pub open spec fn is_substring_of(needle: Seq<char>, hay: Seq<char>) -> bool {
    exists|i: int|
        0 <= i && i + needle.len() <= hay.len() && #[trigger] hay.subrange(i, i + needle.len())
            == needle
}

/// Whether `hay` carries `needle` starting at position `at`.
fn matches_at(hay: &str, needle: &str, at: usize) -> (r: bool)
    requires
        at + needle@.len() <= hay@.len(),
        hay@.len() <= usize::MAX,
    ensures
        r == (hay@.subrange(at as int, at + needle@.len()) == needle@),
{
    let m = needle.unicode_len();
    let mut j: usize = 0;
    while j < m
        invariant
            m == needle@.len(),
            at + m <= hay@.len(),
            hay@.len() <= usize::MAX,
            j <= m,
            forall|k: int| 0 <= k < j ==> hay@[at + k] == needle@[k],
        decreases m - j,
    {
        if hay.get_char(at + j) != needle.get_char(j) {
            proof {
                assert(hay@.subrange(at as int, at + needle@.len())[j as int] == hay@[at + j]);
            }
            return false;
        }
        j += 1;
    }
    proof {
        assert(hay@.subrange(at as int, at + needle@.len()) =~= needle@);
    }
    true
}

/// Substring containment, the base predicate when `match_entire_line` is off.
pub fn contains_sub(hay: &str, needle: &str) -> (r: bool)
    ensures
        r == is_substring_of(needle@, hay@),
{
    let n = hay.unicode_len();
    let m = needle.unicode_len();
    if m > n {
        return false;
    }
    if m == 0 {
        proof {
            assert(hay@.subrange(0, 0 + needle@.len() as int) =~= needle@);
            assert(is_substring_of(needle@, hay@));
        }
        return true;
    }
    let mut i: usize = 0;
    while i <= n - m
        invariant
            n == hay@.len(),
            m == needle@.len(),
            0 < m <= n,
            i <= n - m + 1,
            forall|ii: int|
                0 <= ii < i ==> #[trigger] hay@.subrange(ii, ii + needle@.len()) != needle@,
        decreases n - i,
    {
        if matches_at(hay, needle, i) {
            return true;
        }
        i += 1;
    }
    false
}

/// Lower-cased form of a character sequence, as `str::to_lowercase` yields it.
pub uninterp spec fn lower_of(s: Seq<char>) -> Seq<char>;

/// Relies on str::to_lowercase: the result depends on the characters alone.
#[verifier::external_body]
fn lowercase(s: &str) -> (r: String)
    ensures
        r@ == lower_of(s@),
{
    s.to_lowercase()
}

/// The base predicate: whole-line equality under `match_entire_line`,
/// substring containment otherwise.
pub open spec fn spec_match_text(entire: bool, pattern: Seq<char>, text: Seq<char>) -> bool {
    if entire {
        text == pattern
    } else {
        is_substring_of(pattern, text)
    }
}

pub fn match_text(pattern: &str, flags: &Flags, text: &str) -> (r: bool)
    ensures
        r == spec_match_text(flags.match_entire_line, pattern@, text@),
{
    if flags.match_entire_line {
        str_eq(text, pattern)
    } else {
        contains_sub(text, pattern)
    }
}

/// Whether `line` is reported for `pattern` under `flags`: the base predicate
/// on the (possibly lower-cased) forms, then inversion with the empty-line
/// exception.
pub open spec fn spec_is_match(pattern: Seq<char>, flags: Flags, line: Seq<char>) -> bool {
    let base = if flags.case_insensitive {
        spec_match_text(flags.match_entire_line, lower_of(pattern), lower_of(line))
    } else {
        spec_match_text(flags.match_entire_line, pattern, line)
    };
    if flags.invert_result {
        if line.len() == 0 {
            false
        } else {
            !base
        }
    } else {
        base
    }
}

pub fn has_match(pattern: &str, flags: &Flags, line: &str) -> (r: bool)
    ensures
        r == spec_is_match(pattern@, *flags, line@),
{
    let matches_pattern = if flags.case_insensitive {
        let p = lowercase(pattern);
        let l = lowercase(line);
        match_text(p.as_str(), flags, l.as_str())
    } else {
        match_text(pattern, flags, line)
    };
    if flags.invert_result {
        if line.is_empty() { false } else { !matches_pattern }
    } else {
        matches_pattern
    }
}

/// The formatted report for one matched line: the line text, prefixed by
/// `"{1-based index}:"` under `print_line_number`, and by `"{name}:"` when
/// the source name is included.
pub open spec fn spec_format(
    flags: Flags,
    include_file_name: bool,
    file_name: Seq<char>,
    index: nat,
    line: Seq<char>,
) -> Seq<char> {
    let with_num = if flags.print_line_number {
        dec_digits(index + 1) + seq![':'] + line
    } else {
        line
    };
    if include_file_name {
        file_name + seq![':'] + with_num
    } else {
        with_num
    }
}

pub fn format_match(
    flags: &Flags,
    include_file_name: bool,
    file_name: &str,
    index: usize,
    line: &str,
) -> (r: String)
    requires
        index < usize::MAX,
    ensures
        r@ == spec_format(*flags, include_file_name, file_name@, index as nat, line@),
{
    proof {
        reveal_strlit(":");
    }
    let formatted_line = if flags.print_line_number {
        let mut s = u64_to_string((index + 1) as u64);
        s.append(":");
        s.append(line);
        s
    } else {
        String::from_str(line)
    };
    if include_file_name {
        let mut s = String::from_str(file_name);
        s.append(":");
        s.append(formatted_line.as_str());
        proof {
            assert(s@ =~= spec_format(
                *flags,
                include_file_name,
                file_name@,
                index as nat,
                line@,
            ));
        }
        s
    } else {
        proof {
            assert(formatted_line@ =~= spec_format(
                *flags,
                include_file_name,
                file_name@,
                index as nat,
                line@,
            ));
        }
        formatted_line
    }
}

/// The lines of `s`, split on the newline character. The segment after a
/// trailing newline is a real (empty) line, so the result always holds one
/// segment more than `s` holds newlines.
pub open spec fn spec_split_lines(s: Seq<char>) -> Seq<Seq<char>> {
    spec_split_on(s, '\n')
}

/// Split a text into its lines, one `String` per segment.
pub fn split_lines(content: &str) -> (r: Vec<String>)
    ensures
        r.deep_view() == spec_split_lines(content@),
{
    split_on(content, '\n')
}

/// Whether some line of `lines` matches.
pub open spec fn spec_file_has_match(pattern: Seq<char>, flags: Flags, lines: Seq<Seq<char>>) -> bool {
    exists|i: int| 0 <= i < lines.len() && spec_is_match(pattern, flags, lines[i])
}

/// The per-line reports for `lines[i..]`: the formatted text of each
/// matching line, in line order, dropping a report that formats to the
/// empty string.
pub open spec fn spec_report_from(
    pattern: Seq<char>,
    flags: Flags,
    include_file_name: bool,
    file_name: Seq<char>,
    lines: Seq<Seq<char>>,
    i: int,
) -> Seq<Seq<char>>
    decreases lines.len() - i,
{
    if i < 0 || i >= lines.len() {
        Seq::empty()
    } else {
        let rest = spec_report_from(pattern, flags, include_file_name, file_name, lines, i + 1);
        if spec_is_match(pattern, flags, lines[i]) {
            let f = spec_format(flags, include_file_name, file_name, i as nat, lines[i]);
            if f.len() == 0 {
                rest
            } else {
                seq![f] + rest
            }
        } else {
            rest
        }
    }
}

/// What one source contributes to the result: under `print_file_name_only`
/// its name alone, and only if some line matches; otherwise its per-line
/// reports.
pub open spec fn spec_match_file_content(
    pattern: Seq<char>,
    flags: Flags,
    include_file_name: bool,
    file_name: Seq<char>,
    content: Seq<char>,
) -> Seq<Seq<char>> {
    let lines = spec_split_lines(content);
    if flags.print_file_name_only {
        if spec_file_has_match(pattern, flags, lines) {
            seq![file_name]
        } else {
            Seq::empty()
        }
    } else {
        spec_report_from(pattern, flags, include_file_name, file_name, lines, 0)
    }
}

pub fn match_file_content(
    pattern: &str,
    flags: &Flags,
    include_file_name: bool,
    file_name: &str,
    content: &str,
) -> (r: Vec<String>)
    ensures
        r.deep_view() == spec_match_file_content(
            pattern@,
            *flags,
            include_file_name,
            file_name@,
            content@,
        ),
{
    let lines = split_lines(content);
    let n = lines.len();
    let mut r: Vec<String> = Vec::new();
    if flags.print_file_name_only {
        let mut i: usize = 0;
        while i < n
            invariant
                n == lines@.len(),
                i <= n,
                lines.deep_view() == spec_split_lines(content@),
                flags.print_file_name_only,
                r@.len() == 0,
                forall|j: int| 0 <= j < i ==> !spec_is_match(pattern@, *flags, lines.deep_view()[j]),
            decreases n - i,
        {
            if has_match(pattern, flags, lines[i].as_str()) {
                r.push(String::from_str(file_name));
                proof {
                    assert(spec_is_match(pattern@, *flags, lines.deep_view()[i as int]));
                    assert(r.deep_view() =~~= seq![file_name@]);
                }
                return r;
            }
            i += 1;
        }
        proof {
            assert(r.deep_view() =~~= Seq::<Seq<char>>::empty());
        }
        r
    } else {
        let mut i: usize = 0;
        while i < n
            invariant
                n == lines@.len(),
                i <= n,
                lines.deep_view() == spec_split_lines(content@),
                r.deep_view() + spec_report_from(
                    pattern@,
                    *flags,
                    include_file_name,
                    file_name@,
                    lines.deep_view(),
                    i as int,
                ) == spec_report_from(
                    pattern@,
                    *flags,
                    include_file_name,
                    file_name@,
                    lines.deep_view(),
                    0,
                ),
            decreases n - i,
        {
            if has_match(pattern, flags, lines[i].as_str()) {
                let f = format_match(flags, include_file_name, file_name, i, lines[i].as_str());
                if f.unicode_len() != 0 {
                    let ghost old_r = r.deep_view();
                    r.push(f);
                    proof {
                        assert(r.deep_view() =~~= old_r + seq![
                            spec_format(
                                *flags,
                                include_file_name,
                                file_name@,
                                i as nat,
                                lines.deep_view()[i as int],
                            ),
                        ]);
                    }
                }
            }
            i += 1;
        }
        proof {
            assert(r.deep_view() =~~= r.deep_view() + spec_report_from(
                pattern@,
                *flags,
                include_file_name,
                file_name@,
                lines.deep_view(),
                n as int,
            ));
        }
        r
    }
}

/// One named unit of text to be scanned.
pub struct Source {
    pub name: String,
    pub text: String,
}

/// The contributions of `sources[i..]`, in source order.
pub open spec fn spec_search_from(
    pattern: Seq<char>,
    flags: Flags,
    include_file_name: bool,
    sources: Seq<Source>,
    i: int,
) -> Seq<Seq<char>>
    decreases sources.len() - i,
{
    if i < 0 || i >= sources.len() {
        Seq::empty()
    } else {
        spec_match_file_content(
            pattern,
            flags,
            include_file_name,
            sources[i].name@,
            sources[i].text@,
        ) + spec_search_from(pattern, flags, include_file_name, sources, i + 1)
    }
}

/// The full result of one invocation: each source's contribution, sources
/// in the order supplied; names are included exactly when more than one
/// source is given.
pub open spec fn spec_search(pattern: Seq<char>, flags: Flags, sources: Seq<Source>) -> Seq<
    Seq<char>,
> {
    spec_search_from(pattern, flags, sources.len() > 1, sources, 0)
}

/// Scan every source for lines matching `pattern` under `flags` and render
/// the reports in source order, then line order.
pub fn search(pattern: &str, flags: &Flags, sources: &Vec<Source>) -> (r: Vec<String>)
    ensures
        r.deep_view() == spec_search(pattern@, *flags, sources@),
{
    let n = sources.len();
    let include_file_name = n > 1;
    let mut r: Vec<String> = Vec::new();
    let mut i: usize = 0;
    while i < n
        invariant
            n == sources@.len(),
            i <= n,
            include_file_name == (n > 1),
            r.deep_view() + spec_search_from(
                pattern@,
                *flags,
                include_file_name,
                sources@,
                i as int,
            ) == spec_search_from(pattern@, *flags, include_file_name, sources@, 0),
        decreases n - i,
    {
        let ghost old_r = r.deep_view();
        let mut matches = match_file_content(
            pattern,
            flags,
            include_file_name,
            sources[i].name.as_str(),
            sources[i].text.as_str(),
        );
        let ghost matches_view = matches.deep_view();
        r.append(&mut matches);
        proof {
            assert(r.deep_view() =~~= old_r + matches_view);
        }
        i += 1;
    }
    proof {
        assert(r.deep_view() =~~= r.deep_view() + spec_search_from(
            pattern@,
            *flags,
            include_file_name,
            sources@,
            n as int,
        ));
    }
    r
}

/// Law: with `match_entire_line` unset and no other modifier set, a line is
/// reported exactly when it contains the pattern as a substring.
pub proof fn lemma_substring_mode(pattern: Seq<char>, flags: Flags, line: Seq<char>)
    requires
        !flags.match_entire_line,
        !flags.invert_result,
        !flags.case_insensitive,
    ensures
        spec_is_match(pattern, flags, line) == is_substring_of(pattern, line),
{
}

/// Law: with `match_entire_line` set and no other modifier set, a line is
/// reported exactly when it equals the pattern.
pub proof fn lemma_entire_line_mode(pattern: Seq<char>, flags: Flags, line: Seq<char>)
    requires
        flags.match_entire_line,
        !flags.invert_result,
        !flags.case_insensitive,
    ensures
        spec_is_match(pattern, flags, line) == (line == pattern),
{
}

/// Law: under `invert_result` the empty line is never reported, whatever the
/// pattern and the other modifiers.
pub proof fn lemma_invert_empty_line(pattern: Seq<char>, flags: Flags, line: Seq<char>)
    requires
        flags.invert_result,
        line.len() == 0,
    ensures
        !spec_is_match(pattern, flags, line),
{
}

/// Law: under `case_insensitive` without inversion, matching is the base
/// predicate applied to the lower-cased pattern and line, so case folding
/// composes with `match_entire_line`.
pub proof fn lemma_case_folds_base(pattern: Seq<char>, flags: Flags, line: Seq<char>)
    requires
        flags.case_insensitive,
        !flags.invert_result,
    ensures
        spec_is_match(pattern, flags, line) == spec_match_text(
            flags.match_entire_line,
            lower_of(pattern),
            lower_of(line),
        ),
{
}

/// Law: under `case_insensitive` with inversion, a non-empty line is
/// reported exactly when its lower-cased form fails the base predicate
/// against the lower-cased pattern, so case folding composes with
/// `invert_result` too.
pub proof fn lemma_case_folds_inverted(pattern: Seq<char>, flags: Flags, line: Seq<char>)
    requires
        flags.case_insensitive,
        flags.invert_result,
        line.len() > 0,
    ensures
        spec_is_match(pattern, flags, line) == !spec_match_text(
            flags.match_entire_line,
            lower_of(pattern),
            lower_of(line),
        ),
{
}

/// Law: the formatted report depends on the matching modifiers only through
/// `print_line_number`; in particular the emitted text carries the line in
/// its original casing, never a lower-cased form.
pub proof fn lemma_format_preserves_casing(
    flags: Flags,
    other: Flags,
    include_file_name: bool,
    file_name: Seq<char>,
    index: nat,
    line: Seq<char>,
)
    requires
        flags.print_line_number == other.print_line_number,
    ensures
        spec_format(flags, include_file_name, file_name, index, line) == spec_format(
            other,
            include_file_name,
            file_name,
            index,
            line,
        ),
{
}

/// Whether `prefix` is an initial segment of `s`.
pub open spec fn starts_with(s: Seq<char>, prefix: Seq<char>) -> bool {
    prefix.len() <= s.len() && s.subrange(0, prefix.len() as int) == prefix
}

/// Law: with exactly one source, the result is that source's contribution
/// with the source name left out of every report.
pub proof fn lemma_single_source_unprefixed(pattern: Seq<char>, flags: Flags, sources: Seq<Source>)
    requires
        sources.len() == 1,
    ensures
        spec_search(pattern, flags, sources) == spec_match_file_content(
            pattern,
            flags,
            false,
            sources[0].name@,
            sources[0].text@,
        ),
{
    assert(spec_search_from(pattern, flags, false, sources, 1) =~~= Seq::<Seq<char>>::empty());
    assert(spec_search(pattern, flags, sources) =~~= spec_match_file_content(
        pattern,
        flags,
        false,
        sources[0].name@,
        sources[0].text@,
    ));
}

proof fn lemma_report_from_prefix(
    pattern: Seq<char>,
    flags: Flags,
    file_name: Seq<char>,
    lines: Seq<Seq<char>>,
    i: int,
    k: int,
)
    requires
        0 <= k < spec_report_from(pattern, flags, true, file_name, lines, i).len(),
    ensures
        starts_with(
            spec_report_from(pattern, flags, true, file_name, lines, i)[k],
            file_name + seq![':'],
        ),
    decreases lines.len() - i,
{
    let res = spec_report_from(pattern, flags, true, file_name, lines, i);
    if i < 0 || i >= lines.len() {
    } else {
        let rest = spec_report_from(pattern, flags, true, file_name, lines, i + 1);
        if spec_is_match(pattern, flags, lines[i]) {
            let f = spec_format(flags, true, file_name, i as nat, lines[i]);
            if f.len() == 0 {
                lemma_report_from_prefix(pattern, flags, file_name, lines, i + 1, k);
            } else if k == 0 {
                assert(res[0] == f);
                assert(f.subrange(0, file_name.len() as int + 1) =~= file_name + seq![':']);
            } else {
                lemma_report_from_prefix(pattern, flags, file_name, lines, i + 1, k - 1);
                assert(res[k] == rest[k - 1]);
            }
        } else {
            lemma_report_from_prefix(pattern, flags, file_name, lines, i + 1, k);
        }
    }
}

proof fn lemma_search_from_prefix(
    pattern: Seq<char>,
    flags: Flags,
    sources: Seq<Source>,
    i: int,
    k: int,
)
    requires
        !flags.print_file_name_only,
        0 <= k < spec_search_from(pattern, flags, true, sources, i).len(),
    ensures
        exists|j: int|
            0 <= j < sources.len() && starts_with(
                #[trigger] spec_search_from(pattern, flags, true, sources, i)[k],
                sources[j].name@ + seq![':'],
            ),
    decreases sources.len() - i,
{
    let res = spec_search_from(pattern, flags, true, sources, i);
    if i < 0 || i >= sources.len() {
    } else {
        let first = spec_match_file_content(
            pattern,
            flags,
            true,
            sources[i].name@,
            sources[i].text@,
        );
        let rest = spec_search_from(pattern, flags, true, sources, i + 1);
        if k < first.len() {
            lemma_report_from_prefix(
                pattern,
                flags,
                sources[i].name@,
                spec_split_lines(sources[i].text@),
                0,
                k,
            );
            assert(res[k] == first[k]);
            assert(starts_with(res[k], sources[i].name@ + seq![':']));
        } else {
            lemma_search_from_prefix(pattern, flags, sources, i + 1, k - first.len());
            assert(res[k] == rest[k - first.len()]);
        }
    }
}

/// Law: with two or more sources and per-line reporting, every report
/// carries some source's name and a colon as its prefix.
pub proof fn lemma_multi_source_prefixed(
    pattern: Seq<char>,
    flags: Flags,
    sources: Seq<Source>,
    k: int,
)
    requires
        sources.len() > 1,
        !flags.print_file_name_only,
        0 <= k < spec_search(pattern, flags, sources).len(),
    ensures
        exists|j: int|
            0 <= j < sources.len() && starts_with(
                #[trigger] spec_search(pattern, flags, sources)[k],
                sources[j].name@ + seq![':'],
            ),
{
    lemma_search_from_prefix(pattern, flags, sources, 0, k);
}

/// Whether `e` is the name of some source in `sources` that holds a
/// matching line.
pub open spec fn is_matching_source_name(
    pattern: Seq<char>,
    flags: Flags,
    sources: Seq<Source>,
    e: Seq<char>,
) -> bool {
    exists|j: int|
        0 <= j < sources.len() && e == #[trigger] sources[j].name@ && spec_file_has_match(
            pattern,
            flags,
            spec_split_lines(sources[j].text@),
        )
}

proof fn lemma_names_only_from(
    pattern: Seq<char>,
    flags: Flags,
    inc: bool,
    sources: Seq<Source>,
    i: int,
)
    requires
        flags.print_file_name_only,
        0 <= i <= sources.len(),
    ensures
        spec_search_from(pattern, flags, inc, sources, i).len() <= sources.len() - i,
        forall|k: int|
            0 <= k < spec_search_from(pattern, flags, inc, sources, i).len()
                ==> is_matching_source_name(
                pattern,
                flags,
                sources,
                #[trigger] spec_search_from(pattern, flags, inc, sources, i)[k],
            ),
    decreases sources.len() - i,
{
    let res = spec_search_from(pattern, flags, inc, sources, i);
    if i >= sources.len() {
    } else {
        let first = spec_match_file_content(
            pattern,
            flags,
            inc,
            sources[i].name@,
            sources[i].text@,
        );
        let rest = spec_search_from(pattern, flags, inc, sources, i + 1);
        lemma_names_only_from(pattern, flags, inc, sources, i + 1);
        assert forall|k: int| 0 <= k < res.len() implies is_matching_source_name(
            pattern,
            flags,
            sources,
            res[k],
        ) by {
            if k < first.len() {
                assert(res[k] == sources[i].name@);
            } else {
                assert(res[k] == rest[k - first.len()]);
            }
        }
    }
}

/// Law: under `print_file_name_only` the result holds at most one entry per
/// source, and every entry is the name of a source with a matching line —
/// never line text, whatever `print_line_number` says.
pub proof fn lemma_file_name_only_entries(pattern: Seq<char>, flags: Flags, sources: Seq<Source>)
    requires
        flags.print_file_name_only,
    ensures
        spec_search(pattern, flags, sources).len() <= sources.len(),
        forall|k: int|
            0 <= k < spec_search(pattern, flags, sources).len() ==> is_matching_source_name(
                pattern,
                flags,
                sources,
                #[trigger] spec_search(pattern, flags, sources)[k],
            ),
{
    lemma_names_only_from(pattern, flags, sources.len() > 1, sources, 0);
}

/// Law: the result of a scan is a function of the pattern, the flags and the
/// sources alone, so two runs on identical inputs yield identical results.
pub proof fn lemma_search_deterministic(
    pattern: Seq<char>,
    flags: Flags,
    sources: Seq<Source>,
    r1: Seq<Seq<char>>,
    r2: Seq<Seq<char>>,
)
    requires
        r1 == spec_search(pattern, flags, sources),
        r2 == spec_search(pattern, flags, sources),
    ensures
        r1 == r2,
{
}

} // verus!
