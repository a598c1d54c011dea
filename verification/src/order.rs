//! The order of the parameters of a search URL.
//!
//! Values are copied into a URL as they are, so a value that holds `&`
//! can imitate a parameter. For values without `&` (pre-encoded, as the
//! composer expects them) the parameter names occur in one fixed order:
//! every occurrence of an earlier name precedes every occurrence of a
//! later one.

use vstd::prelude::*;
use crate::text::{decimal, decimal_nat, escape_spaces};
use crate::url::{
    optional, query_fragment, repeated, search_head, search_tail, search_url, Search,
};

verus! {

/// The parameter names whose order is fixed, in that order.
pub open spec fn parameter_names() -> Seq<Seq<char>> {
    seq![
        "&t="@,
        "&demographic="@,
        "&genres="@,
        "&excludes="@,
        "&sort="@,
        "&country="@,
        "&completed="@,
    ]
}

/// Whether `pattern` occurs in `text` starting at position `at`.
pub open spec fn occurs_at(text: Seq<char>, pattern: Seq<char>, at: int) -> bool {
    &&& 0 <= at
    &&& at + pattern.len() <= text.len()
    &&& text.subrange(at, at + pattern.len()) == pattern
}

/// Whether `at` is the first position at which `pattern` occurs in `text`.
pub open spec fn first_occurrence(text: Seq<char>, pattern: Seq<char>, at: int) -> bool {
    &&& occurs_at(text, pattern, at)
    &&& forall|earlier: int| 0 <= earlier < at ==> !occurs_at(text, pattern, earlier)
}

/// Whether the text holds no `&`.
pub open spec fn amp_free(text: Seq<char>) -> bool {
    forall|i: int| 0 <= i < text.len() ==> text[i] != '&'
}

/// Whether none of the texts holds `&`.
pub open spec fn all_amp_free(values: Seq<Seq<char>>) -> bool {
    forall|k: int| 0 <= k < values.len() ==> amp_free(#[trigger] values[k])
}

/// The parameter that may start at position `i`, told by the characters
/// that follow the `&` there: its place in `parameter_names`, or -1
/// where no `&` stands, fewer than three characters follow it, or they
/// begin none of the names.
spec fn tag_at(text: Seq<char>, i: int) -> int {
    if 0 <= i && i + 3 < text.len() && text[i] == '&' {
        let a = text[i + 1];
        let b = text[i + 2];
        let c = text[i + 3];
        if a == 't' && b == '=' {
            0
        } else if a == 'd' {
            1
        } else if a == 'g' {
            2
        } else if a == 'e' {
            3
        } else if a == 's' {
            4
        } else if a == 'c' && c == 'u' {
            5
        } else if a == 'c' && c == 'm' {
            6
        } else {
            -1
        }
    } else {
        -1
    }
}

/// Whether every `&` of the text is followed by at least three
/// characters, and the parameters told by `tag_at` lie between `lo` and
/// `hi` and never step down from left to right.
spec fn tags_ascend(text: Seq<char>, lo: int, hi: int) -> bool {
    &&& forall|i: int| 0 <= i < text.len() && text[i] == '&' ==> i + 3 < text.len()
    &&& forall|i: int| 0 <= i < text.len() && tag_at(text, i) >= 0 ==> lo <= tag_at(text, i) <= hi
    &&& forall|i: int, j: int|
        0 <= i < j < text.len() && tag_at(text, i) >= 0 && tag_at(text, j) >= 0 ==> tag_at(text, i)
            <= tag_at(text, j)
}

proof fn lemma_tags_concat(x: Seq<char>, y: Seq<char>, lo: int, mid: int, hi: int)
    requires
        tags_ascend(x, lo, mid),
        tags_ascend(y, mid, hi),
        lo <= mid <= hi,
    ensures
        tags_ascend(x + y, lo, hi),
{
    let xy = x + y;
    assert forall|i: int| 0 <= i < x.len() implies tag_at(xy, i) == tag_at(x, i) by {
        assert(xy[i] == x[i]);
        if x[i] == '&' {
            assert(xy[i + 1] == x[i + 1]);
            assert(xy[i + 2] == x[i + 2]);
            assert(xy[i + 3] == x[i + 3]);
        }
    }
    assert forall|i: int| x.len() <= i < xy.len() implies tag_at(xy, i) == tag_at(y, i - x.len()) by {
        let j = i - x.len();
        assert(xy[i] == y[j]);
        if y[j] == '&' {
            assert(xy[i + 1] == y[j + 1]);
            assert(xy[i + 2] == y[j + 2]);
            assert(xy[i + 3] == y[j + 3]);
        }
    }
    assert forall|i: int| 0 <= i < xy.len() && xy[i] == '&' implies i + 3 < xy.len() by {
        if i < x.len() {
            assert(x[i] == '&');
        } else {
            assert(y[i - x.len()] == '&');
        }
    }
    assert forall|i: int| 0 <= i < xy.len() && tag_at(xy, i) >= 0 implies lo <= tag_at(xy, i)
        <= hi by {
        if i < x.len() {
            assert(tag_at(x, i) >= 0);
        } else {
            assert(tag_at(y, i - x.len()) >= 0);
        }
    }
    assert forall|i: int, j: int|
        0 <= i < j < xy.len() && tag_at(xy, i) >= 0 && tag_at(xy, j) >= 0 implies tag_at(xy, i)
        <= tag_at(xy, j) by {
        if j < x.len() {
            assert(tag_at(x, i) <= tag_at(x, j));
        } else if i < x.len() {
            assert(tag_at(x, i) <= mid);
            assert(mid <= tag_at(y, j - x.len()));
        } else {
            assert(tag_at(y, i - x.len()) <= tag_at(y, j - x.len()));
        }
    }
}

proof fn lemma_tags_of_amp_free(v: Seq<char>, lo: int, hi: int)
    requires
        amp_free(v),
    ensures
        tags_ascend(v, lo, hi),
{
}

/// Whether `name` is a parameter name that `tag_at` tells as `tag`: it
/// begins with its only `&` and is at least four characters long.
spec fn names_parameter(name: Seq<char>, tag: int) -> bool {
    &&& name.len() >= 4
    &&& name[0] == '&'
    &&& forall|i: int| 1 <= i < name.len() ==> name[i] != '&'
    &&& tag_at(name, 0) == tag
    &&& 0 <= tag
}

proof fn lemma_tags_of_fragment(name: Seq<char>, value: Seq<char>, tag: int)
    requires
        names_parameter(name, tag),
        amp_free(value),
    ensures
        tags_ascend(name + value, tag, tag),
{
    let text = name + value;
    assert(text[0] == name[0]);
    assert(text[1] == name[1]);
    assert(text[2] == name[2]);
    assert(text[3] == name[3]);
    assert(tag_at(text, 0) == tag);
    assert forall|i: int| 1 <= i < text.len() implies text[i] != '&' by {
        if i < name.len() {
            assert(text[i] == name[i]);
        } else {
            assert(text[i] == value[i - name.len()]);
        }
    }
}

proof fn lemma_tags_of_repeated(name: Seq<char>, values: Seq<Seq<char>>, tag: int)
    requires
        names_parameter(name, tag),
        all_amp_free(values),
    ensures
        tags_ascend(repeated(name, values), tag, tag),
    decreases values.len(),
{
    if values.len() > 0 {
        let earlier = values.drop_last();
        assert forall|k: int| 0 <= k < earlier.len() implies amp_free(#[trigger] earlier[k]) by {
            assert(earlier[k] == values[k]);
        }
        lemma_tags_of_repeated(name, earlier, tag);
        assert(amp_free(values[values.len() - 1]));
        lemma_tags_of_fragment(name, values.last(), tag);
        lemma_tags_concat(repeated(name, earlier), name + values.last(), tag, tag, tag);
    }
}

proof fn lemma_tags_of_optional(name: Seq<char>, value: Seq<char>, tag: int)
    requires
        names_parameter(name, tag),
        amp_free(value),
    ensures
        tags_ascend(optional(name, value), tag, tag),
{
    if value.len() > 0 {
        lemma_tags_of_fragment(name, value, tag);
    }
}

proof fn lemma_decimal_nat_amp_free(n: nat)
    ensures
        amp_free(decimal_nat(n)),
    decreases n,
{
    if n >= 10 {
        lemma_decimal_nat_amp_free(n / 10);
    }
}

proof fn lemma_decimal_amp_free(n: int)
    ensures
        amp_free(decimal(n)),
{
    if n < 0 {
        lemma_decimal_nat_amp_free((-n) as nat);
    } else {
        lemma_decimal_nat_amp_free(n as nat);
    }
}

proof fn lemma_escape_amp_free(q: Seq<char>)
    requires
        amp_free(q),
    ensures
        amp_free(escape_spaces(q)),
        q.len() > 0 ==> escape_spaces(q).len() > 0,
    decreases q.len(),
{
    if q.len() > 0 {
        assert(q[q.len() - 1] != '&');
        lemma_escape_amp_free(q.drop_last());
    }
}

proof fn lemma_tags_of_head(base: Seq<char>, page: int)
    requires
        amp_free(base),
    ensures
        tags_ascend(search_head(base, page), 0, 0),
{
    reveal_strlit("/v1.0/search?page=");
    reveal_strlit("&tachiyomi=true");
    let path = "/v1.0/search?page="@;
    let flag = "&tachiyomi=true"@;
    lemma_decimal_amp_free(page);
    let front = base + path + decimal(page);
    assert(path =~= seq![
        '/', 'v', '1', '.', '0', '/', 's', 'e', 'a', 'r', 'c', 'h', '?', 'p', 'a', 'g', 'e', '=',
    ]);
    assert(flag =~= seq![
        '&', 't', 'a', 'c', 'h', 'i', 'y', 'o', 'm', 'i', '=', 't', 'r', 'u', 'e',
    ]);
    assert(amp_free(front));
    lemma_tags_of_amp_free(front, 0, 0);
    assert(tag_at(flag, 0) == -1);
    assert(tags_ascend(flag, 0, 0));
    lemma_tags_concat(front, flag, 0, 0, 0);
}

proof fn lemma_tags_of_query(query: Seq<char>)
    requires
        amp_free(query),
    ensures
        tags_ascend(query_fragment(query), 0, 0),
{
    if query.len() > 0 {
        reveal_strlit("&t=true&q=");
        let lead = "&t=true&q="@;
        assert(lead =~= seq!['&', 't', '=', 't', 'r', 'u', 'e', '&', 'q', '=']);
        lemma_escape_amp_free(query);
        let text = lead + escape_spaces(query);
        assert forall|i: int| 0 <= i < text.len() && i != 0 && i != 7 implies text[i] != '&' by {
            if i < lead.len() {
                assert(text[i] == lead[i]);
            } else {
                assert(text[i] == escape_spaces(query)[i - lead.len()]);
            }
        }
        assert(text[0] == lead[0] && text[1] == lead[1] && text[2] == lead[2]);
        assert(text[7] == lead[7] && text[8] == lead[8]);
        assert(tag_at(text, 0) == 0);
        assert(tag_at(text, 7) == -1);
    }
}

proof fn lemma_parameter_names()
    ensures
        names_parameter("&demographic="@, 1),
        names_parameter("&genres="@, 2),
        names_parameter("&excludes="@, 3),
        names_parameter("&sort="@, 4),
        names_parameter("&country="@, 5),
        names_parameter("&completed="@, 6),
        "&t="@ == seq!['&', 't', '='],
{
    reveal_strlit("&t=");
    reveal_strlit("&demographic=");
    reveal_strlit("&genres=");
    reveal_strlit("&excludes=");
    reveal_strlit("&sort=");
    reveal_strlit("&country=");
    reveal_strlit("&completed=");
    assert("&t="@ =~= seq!['&', 't', '=']);
    assert("&demographic="@ =~= seq![
        '&', 'd', 'e', 'm', 'o', 'g', 'r', 'a', 'p', 'h', 'i', 'c', '=',
    ]);
    assert("&genres="@ =~= seq!['&', 'g', 'e', 'n', 'r', 'e', 's', '=']);
    assert("&excludes="@ =~= seq!['&', 'e', 'x', 'c', 'l', 'u', 'd', 'e', 's', '=']);
    assert("&sort="@ =~= seq!['&', 's', 'o', 'r', 't', '=']);
    assert("&country="@ =~= seq!['&', 'c', 'o', 'u', 'n', 't', 'r', 'y', '=']);
    assert("&completed="@ =~= seq!['&', 'c', 'o', 'm', 'p', 'l', 'e', 't', 'e', 'd', '=']);
}

/// Whether none of the selections of a search holds `&`.
pub open spec fn selections_amp_free(s: Search) -> bool {
    &&& amp_free(s.base)
    &&& amp_free(s.query)
    &&& all_amp_free(s.included)
    &&& all_amp_free(s.excluded)
    &&& all_amp_free(s.demographic)
    &&& amp_free(s.manga_type)
    &&& amp_free(s.sort_by)
    &&& amp_free(s.completed)
}

proof fn lemma_tags_of_search_url(s: Search)
    requires
        selections_amp_free(s),
    ensures
        tags_ascend(search_url(s), 0, 6),
{
    lemma_parameter_names();
    lemma_tags_of_head(s.base, s.page);
    lemma_tags_of_query(s.query);
    lemma_tags_of_repeated("&demographic="@, s.demographic, 1);
    lemma_tags_of_repeated("&genres="@, s.included, 2);
    lemma_tags_of_repeated("&excludes="@, s.excluded, 3);
    lemma_tags_of_optional("&sort="@, s.sort_by, 4);
    lemma_tags_of_optional("&country="@, s.manga_type, 5);
    lemma_tags_of_optional("&completed="@, s.completed, 6);
    let q = query_fragment(s.query);
    let d = repeated("&demographic="@, s.demographic);
    let g = repeated("&genres="@, s.included);
    let e = repeated("&excludes="@, s.excluded);
    let o = optional("&sort="@, s.sort_by);
    let c = optional("&country="@, s.manga_type);
    let f = optional("&completed="@, s.completed);
    lemma_tags_concat(q, d, 0, 0, 1);
    lemma_tags_concat(q + d, g, 0, 1, 2);
    lemma_tags_concat(q + d + g, e, 0, 2, 3);
    lemma_tags_concat(q + d + g + e, o, 0, 3, 4);
    lemma_tags_concat(q + d + g + e + o, c, 0, 4, 5);
    lemma_tags_concat(q + d + g + e + o + c, f, 0, 5, 6);
    lemma_tags_concat(search_head(s.base, s.page), search_tail(s), 0, 0, 6);
}

proof fn lemma_occurrence_tag(text: Seq<char>, k: int, at: int)
    requires
        tags_ascend(text, 0, 6),
        0 <= k < 7,
        occurs_at(text, parameter_names()[k], at),
    ensures
        0 <= at < text.len(),
        tag_at(text, at) == k,
{
    lemma_parameter_names();
    let name = parameter_names()[k];
    let found = text.subrange(at, at + name.len());
    assert(name.len() >= 3);
    assert(found[0] == text[at] && found[1] == text[at + 1] && found[2] == text[at + 2]);
    assert(name[0] == '&');
    if k > 0 {
        assert(found[3] == text[at + 3]);
    }
}

/// In the search URL of selections without `&`, the parameter names
/// keep their order: wherever an earlier name of `parameter_names`
/// occurs, it stands before every occurrence of a later name.
pub proof fn lemma_parameter_occurrences_in_order(
    s: Search,
    earlier: int,
    later: int,
    at_earlier: int,
    at_later: int,
)
    requires
        selections_amp_free(s),
        0 <= earlier < later < parameter_names().len(),
        occurs_at(search_url(s), parameter_names()[earlier], at_earlier),
        occurs_at(search_url(s), parameter_names()[later], at_later),
    ensures
        at_earlier < at_later,
{
    lemma_tags_of_search_url(s);
    lemma_occurrence_tag(search_url(s), earlier, at_earlier);
    lemma_occurrence_tag(search_url(s), later, at_later);
}

/// In the search URL of selections without `&`, the first occurrences
/// of the parameter names that occur at all are in the order of
/// `parameter_names`.
pub proof fn lemma_first_occurrences_in_order(
    s: Search,
    earlier: int,
    later: int,
    at_earlier: int,
    at_later: int,
)
    requires
        selections_amp_free(s),
        0 <= earlier < later < parameter_names().len(),
        first_occurrence(search_url(s), parameter_names()[earlier], at_earlier),
        first_occurrence(search_url(s), parameter_names()[later], at_later),
    ensures
        at_earlier < at_later,
{
    lemma_parameter_occurrences_in_order(s, earlier, later, at_earlier, at_later);
}

} // verus!
