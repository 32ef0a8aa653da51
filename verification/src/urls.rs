//! The addresses and request bodies that the scraping workers send to the
//! card marketplace, and the ones they read back from its pages.

use vstd::prelude::*;
use vstd::string::*;
use crate::decimal::{decimal, push_decimal, push_signed_decimal, signed_decimal};
use crate::text::{law_remove_char, replace_all, replace_spec};

verus! {

/// The address of one page of the card search listing.
pub fn list_page_url(page: i32) -> (s: String)
    ensures
        s@ == "https://www.tcgplayer.com/search/pokemon/product?productLineName=pokemon&page="@
            + signed_decimal(page as int) + "&view=grid"@,
{
    let mut s = String::from_str(
        "https://www.tcgplayer.com/search/pokemon/product?productLineName=pokemon&page=",
    );
    push_signed_decimal(&mut s, page as i64);
    s.append("&view=grid");
    s
}

/// The absolute address of a card page from the `href` of a search result.
pub fn card_url(href: &str) -> (s: String)
    ensures
        s@ == "https://www.tcgplayer.com"@ + href@,
{
    let mut s = String::from_str("https://www.tcgplayer.com");
    s.append(href);
    s
}

/// The card addresses of the search results that carry an `href`, in order.
pub open spec fn card_urls_spec(hrefs: Seq<Option<String>>) -> Seq<Seq<char>>
    decreases hrefs.len(),
{
    if hrefs.len() == 0 {
        Seq::empty()
    } else {
        let prev = card_urls_spec(hrefs.drop_last());
        match hrefs.last() {
            Some(h) => prev.push("https://www.tcgplayer.com"@ + h@),
            None => prev,
        }
    }
}

/// The card addresses are those of the results that carry an `href`, each
/// the site followed by that `href`, in the order of the results.
pub proof fn law_card_urls(hrefs: Seq<Option<String>>)
    ensures
        card_urls_spec(hrefs) == hrefs.filter(|h: Option<String>| h is Some).map_values(
            |h: Option<String>| "https://www.tcgplayer.com"@ + h.unwrap()@,
        ),
    decreases hrefs.len(),
{
    reveal(Seq::filter);
    if hrefs.len() > 0 {
        law_card_urls(hrefs.drop_last());
        let prev = hrefs.drop_last().filter(|h: Option<String>| h is Some);
        if hrefs.last() is Some {
            assert(prev.push(hrefs.last()).map_values(
                |h: Option<String>| "https://www.tcgplayer.com"@ + h.unwrap()@,
            ) =~= prev.map_values(|h: Option<String>| "https://www.tcgplayer.com"@ + h.unwrap()@).push(
                "https://www.tcgplayer.com"@ + hrefs.last().unwrap()@,
            ));
        }
    }
}

/// One more search result adds its address at the end when it carries an
/// `href`, and adds nothing when it does not.
pub proof fn law_card_urls_append(hrefs: Seq<Option<String>>, next: Option<String>)
    ensures
        next matches Some(h) ==> card_urls_spec(hrefs.push(next)) == card_urls_spec(hrefs).push(
            "https://www.tcgplayer.com"@ + h@,
        ),
        next is None ==> card_urls_spec(hrefs.push(next)) == card_urls_spec(hrefs),
        card_urls_spec(hrefs.push(next)).len() == card_urls_spec(hrefs).len() + if next is Some {
            1int
        } else {
            0int
        },
{
    assert(hrefs.push(next).drop_last() =~= hrefs);
}

/// The absolute card addresses of the search results that have an `href`;
/// results without one are skipped.
pub fn card_urls(hrefs: &Vec<Option<String>>) -> (r: Vec<String>)
    ensures
        r@.map_values(|u: String| u@) == card_urls_spec(hrefs@),
        r@.map_values(|u: String| u@) == hrefs@.filter(|h: Option<String>| h is Some).map_values(
            |h: Option<String>| "https://www.tcgplayer.com"@ + h.unwrap()@,
        ),
{
    proof {
        law_card_urls(hrefs@);
    }
    let mut r: Vec<String> = Vec::new();
    let n = hrefs.len();
    let mut i: usize = 0;
    while i < n
        invariant
            n == hrefs.len(),
            i <= n,
            r@.map_values(|u: String| u@) == card_urls_spec(hrefs@.subrange(0, i as int)),
        decreases n - i,
    {
        let ghost pre = hrefs@.subrange(0, i as int);
        let ghost post = hrefs@.subrange(0, i + 1);
        assert(post.drop_last() =~= pre);
        assert(post.last() == hrefs@[i as int]);
        match &hrefs[i] {
            Some(h) => {
                let u = card_url(h.as_str());
                r.push(u);
            },
            None => {},
        }
        assert(r@.map_values(|u: String| u@) =~= card_urls_spec(post));
        i = i + 1;
    }
    assert(hrefs@.subrange(0, n as int) =~= hrefs@);
    r
}

/// The address of a product's image, by product number.
pub fn product_image_url(product_id: u64) -> (s: String)
    ensures
        s@ == "https://product-images.tcgplayer.com/fit-in/736x736/"@ + decimal(product_id as nat)
            + ".jpg"@,
{
    let mut s = String::from_str("https://product-images.tcgplayer.com/fit-in/736x736/");
    push_decimal(&mut s, product_id);
    s.append(".jpg");
    s
}

/// The address of a product's page, by product number.
pub fn product_page_url(product_id: u64) -> (s: String)
    ensures
        s@ == "https://www.tcgplayer.com/product/"@ + decimal(product_id as nat),
{
    let mut s = String::from_str("https://www.tcgplayer.com/product/");
    push_decimal(&mut s, product_id);
    s
}

/// Number of results on one page of the search API.
pub const PAGE_SIZE: u64 = 24;

/// The search request body for a page: the template with its `"from":0`
/// offset replaced by the offset of that page.
pub fn search_page_payload(template: &str, page: u64) -> (s: String)
    requires
        page * 24 <= u64::MAX,
    ensures
        s@ == replace_spec(template@, "from\":0"@, "from\":"@ + decimal((page * 24) as nat)),
{
    let mut offset = String::from_str("from\":");
    push_decimal(&mut offset, page * PAGE_SIZE);
    replace_all(template, "from\":0", offset.as_str())
}

/// The text of a displayed price with its dollar signs removed.
pub fn price_text(shown: &str) -> (s: String)
    ensures
        s@ == replace_spec(shown@, "$"@, ""@),
        s@ == shown@.filter(|c: char| c != '$'),
{
    proof {
        reveal_strlit("$");
        reveal_strlit("");
        assert("$"@ =~= seq!['$']);
        assert(""@ =~= Seq::<char>::empty());
        law_remove_char(shown@, '$');
    }
    replace_all(shown, "$", "")
}

} // verus!
