//! Which hosts are tunneled opaquely instead of being intercepted.

use vstd::prelude::*;
use vstd::string::*;

use crate::text;

verus! {

/// Whether a pattern accepts a host. A pattern is a host, or `*.` and a
/// suffix, which accepts every host with at least one more label before the
/// suffix. Case makes no difference.
pub open spec fn accepts(pattern: Seq<char>, host: Seq<char>) -> bool {
    if text::begins(pattern, "*."@) {
        let end = "."@ + text::lower(pattern.skip(2));
        host.len() > end.len() && text::ends(text::lower(host), end)
    } else {
        text::lower(pattern) == text::lower(host)
    }
}

/// Whether a pattern accepts a host.
pub fn pattern_matches(pattern: &str, host: &str) -> (r: bool)
    ensures
        r == accepts(pattern@, host@),
{
    proof {
        reveal_strlit("*.");
        reveal_strlit(".");
    }
    let lower_host = text::to_lower(host);
    if text::starts_with(pattern, "*.") {
        let suffix = text::skip_chars(pattern, 2);
        let lower_suffix = text::to_lower(suffix.as_str());
        let mut end = ".".to_owned();
        end.append(lower_suffix.as_str());
        let ends = text::ends_with(lower_host.as_str(), end.as_str());
        proof {
            assert(lower_host@.len() == host@.len());
            if ends && lower_host@.len() == end@.len() {
                assert(lower_host@.skip(0) =~= lower_host@);
            }
        }
        ends && !text::same_text(lower_host.as_str(), end.as_str())
    } else {
        let lower_pattern = text::to_lower(pattern);
        text::same_text(lower_pattern.as_str(), lower_host.as_str())
    }
}

/// Whether one of the patterns accepts a host.
pub open spec fn any_accepts(patterns: Seq<Seq<char>>, host: Seq<char>) -> bool {
    exists|i: int| 0 <= i < patterns.len() && accepts(#[trigger] patterns[i], host)
}

/// Whether one of the patterns accepts a host.
pub fn any_matches(patterns: &Vec<String>, host: &str) -> (r: bool)
    ensures
        r == any_accepts(text::texts(patterns@), host@),
{
    let ghost all = text::texts(patterns@);
    let mut i: usize = 0;
    while i < patterns.len()
        invariant
            i <= patterns@.len(),
            all == text::texts(patterns@),
            forall|j: int| 0 <= j < i ==> !accepts(#[trigger] all[j], host@),
        decreases patterns@.len() - i,
    {
        proof {
            assert(all[i as int] == patterns@[i as int]@);
        }
        if pattern_matches(patterns[i].as_str(), host) {
            return true;
        }
        i += 1;
    }
    false
}

/// Case makes no difference, neither in a pattern nor in a host.
pub proof fn law_case_makes_no_difference(
    pattern: Seq<char>,
    pattern2: Seq<char>,
    host: Seq<char>,
    host2: Seq<char>,
)
    requires
        text::lower(pattern) == text::lower(pattern2),
        text::lower(host) == text::lower(host2),
    ensures
        accepts(pattern, host) == accepts(pattern2, host2),
{
    reveal_strlit("*.");
    assert(text::lower(pattern).len() == pattern.len());
    assert(text::lower(pattern2).len() == pattern2.len());
    assert(text::lower(host).len() == host.len());
    assert(text::lower(host2).len() == host2.len());
    if pattern.len() >= 2 {
        if text::begins(pattern, "*."@) {
            lemma_wildcard_start(pattern, pattern2);
        }
        if text::begins(pattern2, "*."@) {
            lemma_wildcard_start(pattern2, pattern);
        }
        assert(text::lower(pattern.skip(2)) =~= text::lower(pattern).skip(2));
        assert(text::lower(pattern2.skip(2)) =~= text::lower(pattern2).skip(2));
    }
}

/// Folding to lower case leaves `*.` alone and makes it of nothing else.
proof fn lemma_wildcard_start(a: Seq<char>, b: Seq<char>)
    requires
        text::lower(a) == text::lower(b),
        a.len() >= 2,
        text::begins(a, "*."@),
    ensures
        text::begins(b, "*."@),
{
    reveal_strlit("*.");
    assert(text::lower(a).len() == a.len());
    assert(text::lower(b).len() == b.len());
    assert(a.take(2)[0] == '*' && a.take(2)[1] == '.');
    assert(text::lower(a)[0] == text::lower_char(a[0]));
    assert(text::lower(a)[1] == text::lower_char(a[1]));
    assert(text::lower(b)[0] == text::lower_char(b[0]));
    assert(text::lower(b)[1] == text::lower_char(b[1]));
    lemma_folds_from_letter_only(b[0]);
    lemma_folds_from_letter_only(b[1]);
    assert(b.take(2) =~= "*."@);
}

/// A character that is no lower-case letter is the lower case of itself only.
proof fn lemma_folds_from_letter_only(c: char)
    ensures
        text::lower_char(c) == c || ('a' <= text::lower_char(c) && text::lower_char(c) <= 'z'),
{
    if 'A' <= c && c <= 'Z' {
        let u = ((c as u8) + 32) as u8;
        assert(97 <= u <= 122);
        assert(text::lower_char(c) == u as char);
    }
}

/// A wildcard accepts exactly the hosts that have something before the dot
/// and the suffix; never the suffix by itself.
pub proof fn law_wildcard_needs_a_label(suffix: Seq<char>, host: Seq<char>)
    ensures
        accepts("*."@ + suffix, host) <==> exists|label: Seq<char>|
            label.len() > 0 && text::lower(host) == #[trigger] (label + "."@ + text::lower(suffix)),
        !accepts("*."@ + suffix, suffix),
{
    reveal_strlit("*.");
    reveal_strlit(".");
    let pattern = "*."@ + suffix;
    let end = "."@ + text::lower(suffix);
    assert(pattern.take(2) =~= "*."@);
    assert(pattern.skip(2) =~= suffix);
    assert(text::lower(host).len() == host.len());
    assert(text::lower(suffix).len() == suffix.len());
    if accepts(pattern, host) {
        let label = text::lower(host).take(host.len() - end.len());
        assert(text::lower(host) =~= label + text::lower(host).skip(host.len() - end.len()));
        assert(label + end =~= label + "."@ + text::lower(suffix));
    }
    if exists|label: Seq<char>|
        label.len() > 0 && text::lower(host) == #[trigger] (label + "."@ + text::lower(suffix)) {
        let label = choose|label: Seq<char>|
            label.len() > 0 && text::lower(host) == #[trigger] (label + "."@ + text::lower(suffix));
        assert((label + "."@ + text::lower(suffix)).skip(label.len() as int) =~= end);
    }
}

/// A pattern that does not begin with `*.` accepts a host exactly when the two
/// are equally long and agree, character by character, but for ASCII case. So
/// it accepts no host that is longer or shorter than itself.
pub proof fn law_exact_pattern_is_the_host(pattern: Seq<char>, host: Seq<char>)
    requires
        !(pattern.len() >= 2 && pattern[0] == '*' && pattern[1] == '.'),
    ensures
        accepts(pattern, host) <==> pattern.len() == host.len() && forall|i: int|
            0 <= i < pattern.len() ==> text::same_but_for_case(#[trigger] pattern[i], host[i]),
        accepts(pattern, host) ==> host.len() == pattern.len(),
{
    reveal_strlit("*.");
    if text::begins(pattern, "*."@) {
        assert(pattern.take(2)[0] == '*' && pattern.take(2)[1] == '.');
    }
    text::law_folded_texts_agree(pattern, host);
}

/// A pattern that begins with `*.` accepts a host exactly when the host is
/// longer than the rest of the pattern, the dot included, and ends with that
/// rest, character by character, but for ASCII case.
pub proof fn law_wildcard_pattern_is_the_end(pattern: Seq<char>, host: Seq<char>)
    requires
        pattern.len() >= 2,
        pattern[0] == '*',
        pattern[1] == '.',
    ensures
        accepts(pattern, host) <==> host.len() >= pattern.len() && forall|i: int|
            1 <= i < pattern.len() ==> text::same_but_for_case(
                #[trigger] pattern[i],
                host[host.len() - pattern.len() + i],
            ),
{
    reveal_strlit("*.");
    reveal_strlit(".");
    assert(pattern.take(2) =~= "*."@);
    let end = "."@ + text::lower(pattern.skip(2));
    let rest = pattern.skip(1);
    assert(text::lower(host).len() == host.len());
    assert(text::lower(rest).len() == rest.len());
    assert(end =~= text::lower(rest)) by {
        assert forall|i: int| 0 <= i < rest.len() implies end[i] == text::lower(rest)[i] by {
            if i > 0 {
                assert(pattern.skip(2)[i - 1] == pattern[i + 1]);
            }
        }
    }
    if host.len() >= pattern.len() {
        let n = host.len() - rest.len();
        let tail = host.skip(n);
        assert(text::lower(host).skip(n) =~= text::lower(tail));
        text::law_folded_texts_agree(rest, tail);
        if accepts(pattern, host) {
            assert forall|i: int| 1 <= i < pattern.len() implies text::same_but_for_case(
                #[trigger] pattern[i],
                host[host.len() - pattern.len() + i],
            ) by {
                assert(rest[i - 1] == pattern[i]);
                assert(tail[i - 1] == host[host.len() - pattern.len() + i]);
            }
        }
        if forall|i: int|
            1 <= i < pattern.len() ==> text::same_but_for_case(
                #[trigger] pattern[i],
                host[host.len() - pattern.len() + i],
            ) {
            assert forall|i: int| 0 <= i < rest.len() implies text::same_but_for_case(
                #[trigger] rest[i],
                tail[i],
            ) by {
                assert(rest[i] == pattern[i + 1]);
            }
        }
    }
}

/// A list of patterns accepts a host exactly when one of the patterns does: an
/// empty list accepts none, and one more pattern adds the hosts that it
/// accepts and takes none away.
pub proof fn law_each_pattern_adds_its_hosts(
    patterns: Seq<Seq<char>>,
    pattern: Seq<char>,
    host: Seq<char>,
)
    ensures
        !any_accepts(Seq::empty(), host),
        any_accepts(patterns.push(pattern), host) <==> any_accepts(patterns, host) || accepts(
            pattern,
            host,
        ),
{
    let more = patterns.push(pattern);
    assert(more[patterns.len() as int] == pattern);
    if any_accepts(patterns, host) {
        let i = choose|i: int| 0 <= i < patterns.len() && accepts(#[trigger] patterns[i], host);
        assert(more[i] == patterns[i]);
    }
    if any_accepts(more, host) && !accepts(pattern, host) {
        let i = choose|i: int| 0 <= i < more.len() && accepts(#[trigger] more[i], host);
        assert(patterns[i] == more[i]);
    }
}

/// What matching a pattern says: without a leading `*.` whether the host is
/// the pattern but for ASCII case; with it whether the host ends with the rest
/// of the pattern, from its dot on, and has something before that.
pub proof fn law_matching_says_whether_the_host_fits(pattern: &str, host: &str, r: bool)
    requires
        call_ensures(pattern_matches, (pattern, host), r),
    ensures
        !(pattern@.len() >= 2 && pattern@[0] == '*' && pattern@[1] == '.') ==> (r <==> {
            &&& pattern@.len() == host@.len()
            &&& forall|i: int|
                0 <= i < pattern@.len() ==> text::same_but_for_case(
                    #[trigger] pattern@[i],
                    host@[i],
                )
        }),
        pattern@.len() >= 2 && pattern@[0] == '*' && pattern@[1] == '.' ==> (r <==> {
            &&& host@.len() >= pattern@.len()
            &&& forall|i: int|
                1 <= i < pattern@.len() ==> text::same_but_for_case(
                    #[trigger] pattern@[i],
                    host@[host@.len() - pattern@.len() + i],
                )
        }),
{
    if pattern@.len() >= 2 && pattern@[0] == '*' && pattern@[1] == '.' {
        law_wildcard_pattern_is_the_end(pattern@, host@);
    } else {
        law_exact_pattern_is_the_host(pattern@, host@);
    }
}

} // verus!
