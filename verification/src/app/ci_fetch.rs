//! Which providers are asked for the checks of a repository.

use crate::github::{self, parse_github_remote};
use crate::text::{self, same};
use vstd::prelude::*;
use vstd::string::*;

verus! {

/// A remote and its URL, where it has one.
#[derive(Debug)]
pub struct RemoteUrl {
    pub name: String,
    pub url: Option<String>,
}

/// The URLs of the remotes other than `origin`.
pub open spec fn other_urls(remotes: Seq<RemoteUrl>) -> Seq<Seq<char>>
    decreases remotes.len(),
{
    if remotes.len() == 0 {
        Seq::empty()
    } else {
        let rest = other_urls(remotes.drop_last());
        match remotes.last().url {
            Some(u) => if remotes.last().name@ == "origin"@ {
                rest
            } else {
                rest.push(u@)
            },
            None => rest,
        }
    }
}

/// The URLs of all remotes, that of `origin` before the others.
pub open spec fn urls_in_order(origin: Option<Seq<char>>, remotes: Seq<RemoteUrl>) -> Seq<
    Seq<char>,
> {
    (match origin {
        Some(u) => seq![u],
        None => Seq::empty(),
    }) + other_urls(remotes)
}

/// Collect all remote URLs (prefer "origin" first)
pub fn collect_remote_urls(origin: Option<String>, remotes: &Vec<RemoteUrl>) -> (r: Vec<String>)
    ensures
        text::views(r@) == urls_in_order(text::opt_view(origin), remotes@),
{
    let ghost o = text::opt_view(origin);
    let mut urls: Vec<String> = Vec::new();
    if let Some(u) = origin {
        urls.push(u);
    }
    let ghost first = match o {
        Some(u) => seq![u],
        None => Seq::<Seq<char>>::empty(),
    };
    assert(text::views(urls@) =~= first + other_urls(remotes@.take(0)));
    let mut i: usize = 0;
    while i < remotes.len()
        invariant
            i <= remotes.len(),
            text::views(urls@) == first + other_urls(remotes@.take(i as int)),
        decreases remotes.len() - i,
    {
        let remote = &remotes[i];
        proof {
            assert(remotes@.take(i + 1).drop_last() =~= remotes@.take(i as int));
            assert(remotes@.take(i + 1).last() == *remote);
        }
        if let Some(u) = &remote.url {
            if !same(remote.name.as_str(), "origin") {
                let ghost before = urls@;
                let url = u.clone();
                urls.push(url);
                assert(text::views(urls@) =~= text::views(before).push(url@));
            }
        }
        i = i + 1;
        assert(text::views(urls@) =~= first + other_urls(remotes@.take(i as int)));
    }
    assert(remotes@.take(remotes@.len() as int) =~= remotes@);
    urls
}

/// The token that is used: the one in the keychain, or else the one in the settings; an empty
/// one is none.
pub open spec fn token_used(
    keychain: Option<Seq<char>>,
    settings: Option<Seq<char>>,
) -> Option<Seq<char>> {
    let t = match keychain {
        Some(k) => Some(k),
        None => settings,
    };
    match t {
        Some(s) => if s.len() > 0 {
            Some(s)
        } else {
            None
        },
        None => None,
    }
}

/// The token that is used.
pub fn choose_token(keychain: Option<String>, settings: Option<String>) -> (r: Option<String>)
    ensures
        text::opt_view(r) == token_used(text::opt_view(keychain), text::opt_view(settings)),
{
    let t = match keychain {
        Some(k) => Some(k),
        None => settings,
    };
    match t {
        Some(s) => if s.as_str().is_empty() {
            None
        } else {
            Some(s)
        },
        None => None,
    }
}

/// The index of the first URL of a GitHub repository, from `i` on, or the number of URLs.
pub open spec fn github_from(urls: Seq<Seq<char>>, i: int) -> int
    decreases urls.len() - i,
{
    if i >= urls.len() {
        urls.len() as int
    } else if github::github_remote(urls[i]) is Some {
        i
    } else {
        github_from(urls, i + 1)
    }
}

/// The URL that GitHub is asked about: the first of a repository there, where there is a
/// token.
pub fn choose_github_url(urls: &Vec<String>, has_token: bool) -> (r: Option<usize>)
    ensures
        match r {
            Some(i) => has_token && i == github_from(text::views(urls@), 0) && i < urls.len(),
            None => !has_token || github_from(text::views(urls@), 0) == urls.len(),
        },
{
    if !has_token {
        return None;
    }
    let ghost v = text::views(urls@);
    let mut i: usize = 0;
    while i < urls.len()
        invariant
            i <= urls.len(),
            has_token,
            v == text::views(urls@),
            github_from(v, 0) == github_from(v, i as int),
        decreases urls.len() - i,
    {
        assert(v[i as int] == urls@[i as int]@);
        if parse_github_remote(urls[i].as_str()).is_some() {
            return Some(i);
        }
        i = i + 1;
    }
    None
}

/// The index of the first URL, from `i` on, for which there is a token, or the number of URLs.
pub open spec fn token_from(tokens: Seq<Option<String>>, i: int) -> int
    decreases tokens.len() - i,
{
    if i >= tokens.len() {
        tokens.len() as int
    } else if tokens[i] is Some {
        i
    } else {
        token_from(tokens, i + 1)
    }
}

/// The URL that GitLab is asked about: the first with a token. `tokens` holds for each URL the
/// token that is used for its host, none where it is not on GitLab.
pub fn choose_gitlab_url(tokens: &Vec<Option<String>>) -> (r: Option<usize>)
    ensures
        match r {
            Some(i) => i == token_from(tokens@, 0) && i < tokens.len(),
            None => token_from(tokens@, 0) == tokens.len(),
        },
{
    let mut i: usize = 0;
    while i < tokens.len()
        invariant
            i <= tokens.len(),
            token_from(tokens@, 0) == token_from(tokens@, i as int),
        decreases tokens.len() - i,
    {
        if tokens[i].is_some() {
            return Some(i);
        }
        i = i + 1;
    }
    None
}

/// A repository whose `origin` is on GitHub is asked about there.
pub proof fn origin_is_preferred(url: Seq<char>, remotes: Seq<RemoteUrl>)
    requires
        github::github_remote(url) is Some,
    ensures
        github_from(urls_in_order(Some(url), remotes), 0) == 0,
        urls_in_order(Some(url), remotes)[0] == url,
{
}

/// Every remote is asked about that has an address, origin first and the others in their order;
/// origin is not asked about twice.
pub proof fn every_remote_is_asked_about(origin: Option<Seq<char>>, remotes: Seq<RemoteUrl>)
    ensures
        urls_in_order(origin, remotes) == (if origin is Some {
            seq![origin->0]
        } else {
            Seq::empty()
        }) + remotes.filter_map(
            |r: RemoteUrl|
                match r.url {
                    None => None,
                    Some(u) => if r.name@ != "origin"@ {
                        Some(u@)
                    } else {
                        None
                    },
                },
        ),
{
    lemma_other_urls(remotes);
}

proof fn lemma_other_urls(remotes: Seq<RemoteUrl>)
    ensures
        other_urls(remotes) == remotes.filter_map(
            |r: RemoteUrl|
                match r.url {
                    None => None,
                    Some(u) => if r.name@ != "origin"@ {
                        Some(u@)
                    } else {
                        None
                    },
                },
        ),
    decreases remotes.len(),
{
    if remotes.len() > 0 {
        lemma_other_urls(remotes.drop_last());
    }
}

/// The first remote at GitHub is taken, and the first host with a token.
pub proof fn the_first_that_fits_is_taken(
    urls: Seq<Seq<char>>,
    tokens: Seq<Option<String>>,
    i: int,
    k: int,
)
    requires
        0 <= i <= k,
    ensures
        k <= urls.len() && (forall|j: int|
            i <= j < k ==> github::github_remote(#[trigger] urls[j]) is None) && (k < urls.len()
            ==> github::github_remote(urls[k]) is Some) ==> github_from(urls, i) == k,
        k <= tokens.len() && (forall|j: int| i <= j < k ==> (#[trigger] tokens[j]) is None) && (k
            < tokens.len() ==> tokens[k] is Some) ==> token_from(tokens, i) == k,
    decreases k - i,
{
    if i < k {
        the_first_that_fits_is_taken(urls, tokens, i + 1, k);
    }
}

/// The keychain goes before the settings, even where it holds an empty token; an empty token is
/// none.
pub proof fn the_keychain_goes_first(keychain: Seq<char>, settings: Option<Seq<char>>)
    ensures
        keychain.len() > 0 ==> token_used(Some(keychain), settings) == Some(keychain),
        keychain.len() == 0 ==> token_used(Some(keychain), settings) is None,
        settings is Some && settings->0.len() > 0 ==> token_used(None, settings) == settings,
        settings is None || settings->0.len() == 0 ==> token_used(None, settings) is None,
{
}

} // verus!
