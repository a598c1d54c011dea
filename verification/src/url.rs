//! Composition of the catalogue's request URLs.
//!
//! A search URL is a fixed head followed by query fragments in a fixed
//! order; each fragment is a parameter name and a value taken verbatim
//! from the caller (only spaces of the free-text query are escaped).

use vstd::prelude::*;
use vstd::string::*;
use crate::prefs::{get_lang_code, Preferences};
use crate::text::{decimal, escape_spaces, push_decimal, push_escaped, texts};

verus! {

/// One `name` + value fragment per value, in the order of the values.
pub open spec fn repeated(name: Seq<char>, values: Seq<Seq<char>>) -> Seq<char>
    decreases values.len(),
{
    if values.len() == 0 {
        Seq::empty()
    } else {
        repeated(name, values.drop_last()) + (name + values.last())
    }
}

/// The fragment `name` + `value`, or nothing when the value is empty.
pub open spec fn optional(name: Seq<char>, value: Seq<char>) -> Seq<char> {
    if value.len() == 0 {
        Seq::empty()
    } else {
        name + value
    }
}

/// The head that every search URL starts with.
pub open spec fn search_head(base: Seq<char>, page: int) -> Seq<char> {
    base + "/v1.0/search?page="@ + decimal(page) + "&tachiyomi=true"@
}

/// The free-text fragment: nothing for an empty query, else the title
/// flag and the query with its spaces escaped.
pub open spec fn query_fragment(query: Seq<char>) -> Seq<char> {
    if query.len() == 0 {
        Seq::empty()
    } else {
        "&t=true&q="@ + escape_spaces(query)
    }
}

/// The selections of one search request, as texts. An empty text or an
/// empty list means that the selection is not made.
pub struct Search {
    /// Address of the catalogue, without a trailing slash.
    pub base: Seq<char>,
    /// Free-text query.
    pub query: Seq<char>,
    /// Genres that a title must have.
    pub included: Seq<Seq<char>>,
    /// Genres that a title must not have.
    pub excluded: Seq<Seq<char>>,
    /// Demographics to search in.
    pub demographic: Seq<Seq<char>>,
    /// Country of origin, which tells the kind of comic.
    pub manga_type: Seq<char>,
    /// Sort key.
    pub sort_by: Seq<char>,
    /// Completion filter.
    pub completed: Seq<char>,
    /// Page of the result list.
    pub page: int,
}

/// Everything that follows the head of a search URL: the free-text
/// query, the demographics, the included genres, the excluded genres,
/// then sort key, country and completion filter.
pub open spec fn search_tail(s: Search) -> Seq<char> {
    query_fragment(s.query) + repeated("&demographic="@, s.demographic) + repeated(
        "&genres="@,
        s.included,
    ) + repeated("&excludes="@, s.excluded) + optional("&sort="@, s.sort_by) + optional(
        "&country="@,
        s.manga_type,
    ) + optional("&completed="@, s.completed)
}

/// The search URL for the given selections.
pub open spec fn search_url(s: Search) -> Seq<char> {
    search_head(s.base, s.page) + search_tail(s)
}

/// The URL of a search is determined by its selections: equal
/// selections give the same URL, character for character.
pub proof fn lemma_search_url_deterministic(a: Search, b: Search)
    requires
        a.base == b.base,
        a.query == b.query,
        a.included == b.included,
        a.excluded == b.excluded,
        a.demographic == b.demographic,
        a.manga_type == b.manga_type,
        a.sort_by == b.sort_by,
        a.completed == b.completed,
        a.page == b.page,
    ensures
        search_url(a) == search_url(b),
{
}

/// Every search URL starts with the head made of the catalogue's
/// address and the page number.
pub proof fn lemma_search_url_starts_with_head(s: Search)
    ensures
        search_head(s.base, s.page).is_prefix_of(search_url(s)),
{
}

/// The genre fragments of a search: the included genres, then the
/// excluded ones.
pub open spec fn tag_fragments(included: Seq<Seq<char>>, excluded: Seq<Seq<char>>) -> Seq<char> {
    repeated("&genres="@, included) + repeated("&excludes="@, excluded)
}

/// The genre fragments case by case: only included genres give only
/// `genres` fragments, only excluded genres give only `excludes`
/// fragments, neither gives nothing; and with both, all `genres`
/// fragments stand before all `excludes` fragments in the URL.
pub proof fn lemma_tag_fragments_by_case(s: Search)
    ensures
        s.excluded.len() == 0 ==> tag_fragments(s.included, s.excluded) == repeated(
            "&genres="@,
            s.included,
        ),
        s.included.len() == 0 ==> tag_fragments(s.included, s.excluded) == repeated(
            "&excludes="@,
            s.excluded,
        ),
        s.included.len() == 0 && s.excluded.len() == 0 ==> tag_fragments(s.included, s.excluded)
            == Seq::<char>::empty(),
        search_tail(s) == query_fragment(s.query) + repeated("&demographic="@, s.demographic)
            + tag_fragments(s.included, s.excluded) + optional("&sort="@, s.sort_by) + optional(
            "&country="@,
            s.manga_type,
        ) + optional("&completed="@, s.completed),
{
    let g = repeated("&genres="@, s.included);
    let e = repeated("&excludes="@, s.excluded);
    assert(g + Seq::<char>::empty() == g);
    assert(Seq::<char>::empty() + e == e);
    let lead = query_fragment(s.query) + repeated("&demographic="@, s.demographic);
    assert(lead + g + e == lead + (g + e));
}

fn push_repeated(out: &mut String, name: &str, values: &Vec<String>)
    ensures
        final(out)@ == old(out)@ + repeated(name@, texts(values@)),
{
    let n: usize = values.len();
    let mut i: usize = 0;
    while i < n
        invariant
            n == values@.len(),
            i <= n,
            out@ == old(out)@ + repeated(name@, texts(values@).take(i as int)),
        decreases n - i,
    {
        proof {
            let all = texts(values@);
            assert(all.take(i + 1).drop_last() == all.take(i as int));
            assert(all.take(i + 1).last() == values@[i as int]@);
            assert(old(out)@ + repeated(name@, all.take(i as int)) + name@ + values@[i as int]@
                == old(out)@ + (repeated(name@, all.take(i as int)) + (name@
                + values@[i as int]@)));
        }
        out.append(name);
        out.append(values[i].as_str());
        i = i + 1;
    }
    proof {
        assert(texts(values@).take(n as int) == texts(values@));
    }
}

fn push_optional(out: &mut String, name: &str, value: &String)
    ensures
        final(out)@ == old(out)@ + optional(name@, value@),
{
    if !value.as_str().is_empty() {
        out.append(name);
        out.append(value.as_str());
        proof {
            assert(old(out)@ + name@ + value@ == old(out)@ + (name@ + value@));
        }
    } else {
        proof {
            assert(old(out)@ + Seq::<char>::empty() == old(out)@);
        }
    }
}

/// Builds the search URL: the head with the page number, then one
/// fragment for each selection that is made, in the catalogue's
/// canonical order. Values are written as they are; only the spaces of
/// the query are escaped.
pub fn get_search_url(
    api_url: String,
    query: String,
    included_tags: Vec<String>,
    excluded_tags: Vec<String>,
    demographic_tags: Vec<String>,
    manga_type: String,
    sort_by: String,
    completed: String,
    page: i32,
) -> (url: String)
    ensures
        url@ == search_url(
            (Search {
                base: api_url@,
                query: query@,
                included: texts(included_tags@),
                excluded: texts(excluded_tags@),
                demographic: texts(demographic_tags@),
                manga_type: manga_type@,
                sort_by: sort_by@,
                completed: completed@,
                page: page as int,
            }),
        ),
        search_head(api_url@, page as int).is_prefix_of(url@),
{
    let ghost selections = Search {
        base: api_url@,
        query: query@,
        included: texts(included_tags@),
        excluded: texts(excluded_tags@),
        demographic: texts(demographic_tags@),
        manga_type: manga_type@,
        sort_by: sort_by@,
        completed: completed@,
        page: page as int,
    };
    let mut url = api_url;
    url.append("/v1.0/search?page=");
    push_decimal(&mut url, page);
    url.append("&tachiyomi=true");
    let ghost head = url@;
    if !query.as_str().is_empty() {
        url.append("&t=true&q=");
        push_escaped(&mut url, query.as_str());
    }
    assert(url@ == head + query_fragment(query@));
    push_repeated(&mut url, "&demographic=", &demographic_tags);
    push_repeated(&mut url, "&genres=", &included_tags);
    push_repeated(&mut url, "&excludes=", &excluded_tags);
    push_optional(&mut url, "&sort=", &sort_by);
    push_optional(&mut url, "&country=", &manga_type);
    push_optional(&mut url, "&completed=", &completed);
    proof {
        assert(url@ == head + search_tail(selections));
    }
    url
}

/// The order parameter of a listing: `hot` for the selector `Hot`
/// (exactly, case-sensitive), `new` for every other selector.
pub open spec fn listing_order(list_name: Seq<char>) -> Seq<char> {
    if list_name == "Hot"@ {
        "hot"@
    } else {
        "new"@
    }
}

/// The language parameter of a listing: the reader's primary language,
/// or `en` when none is set.
pub open spec fn listing_language(preferred: Option<Seq<char>>) -> Seq<char> {
    match preferred {
        Some(lang) => lang,
        None => "en"@,
    }
}

/// The listing URL for the given selector, page and preferred language.
pub open spec fn listing_url(
    base: Seq<char>,
    preferred: Option<Seq<char>>,
    list_name: Seq<char>,
    page: int,
) -> Seq<char> {
    base + "/chapter?lang="@ + listing_language(preferred) + "&page="@ + decimal(page)
        + "&order="@ + listing_order(list_name) + "&tachiyomi=true"@
}

/// Builds the URL of a chapter listing, in the reader's primary language
/// (`en` when the settings name none). An unknown selector lists the
/// newest chapters.
pub fn get_listing_url(api_url: String, list_name: String, page: i32, prefs: &Preferences) -> (url:
    String)
    ensures
        url@ == listing_url(api_url@, prefs.preferred_language(), list_name@, page as int),
{
    let hot: String = "Hot".to_owned();
    let mut url = api_url;
    url.append("/chapter?lang=");
    match get_lang_code(prefs) {
        Some(lang) => {
            url.append(lang.as_str());
        },
        None => {
            url.append("en");
        },
    }
    url.append("&page=");
    push_decimal(&mut url, page);
    url.append("&order=");
    if list_name == hot {
        url.append("hot");
    } else {
        url.append("new");
    }
    url.append("&tachiyomi=true");
    url
}

} // verus!
