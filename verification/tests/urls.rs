use tcgscan::urls::{
    card_url, card_urls, list_page_url, price_text, product_image_url, product_page_url,
    search_page_payload,
};

#[test]
fn list_page_url_puts_the_page_number_in() {
    assert_eq!(
        list_page_url(1),
        "https://www.tcgplayer.com/search/pokemon/product?productLineName=pokemon&page=1&view=grid"
    );
    assert_eq!(
        list_page_url(10),
        "https://www.tcgplayer.com/search/pokemon/product?productLineName=pokemon&page=10&view=grid"
    );
}

#[test]
fn card_url_prefixes_the_site() {
    assert_eq!(
        card_url("/product/478139/pokemon-crown-zenith-bidoof"),
        "https://www.tcgplayer.com/product/478139/pokemon-crown-zenith-bidoof"
    );
}

#[test]
fn card_urls_skips_results_without_href() {
    let hrefs = vec![Some("/a".to_string()), None, Some("/b".to_string()), None];
    assert_eq!(
        card_urls(&hrefs),
        vec!["https://www.tcgplayer.com/a".to_string(), "https://www.tcgplayer.com/b".to_string()]
    );
    assert!(card_urls(&vec![None, None]).is_empty());
}

#[test]
fn product_urls_use_the_product_number() {
    assert_eq!(
        product_image_url(478139),
        "https://product-images.tcgplayer.com/fit-in/736x736/478139.jpg"
    );
    assert_eq!(product_page_url(478139), "https://www.tcgplayer.com/product/478139");
    assert_eq!(product_page_url(0), "https://www.tcgplayer.com/product/0");
}

#[test]
fn search_page_payload_sets_the_offset() {
    let template = r#"{"algorithm":"sales_synonym_v2","from":0,"size":24}"#;
    assert_eq!(
        search_page_payload(template, 0),
        r#"{"algorithm":"sales_synonym_v2","from":0,"size":24}"#
    );
    assert_eq!(
        search_page_payload(template, 3),
        r#"{"algorithm":"sales_synonym_v2","from":72,"size":24}"#
    );
    assert_eq!(
        search_page_payload(template, 416),
        template.replace(r#"from":0"#, &format!(r#"from":{}"#, 416 * 24))
    );
}

#[test]
fn price_text_drops_dollar_signs() {
    assert_eq!(price_text("$12.34"), "12.34");
    assert_eq!(price_text("$1,000.00"), "1,000.00");
    assert_eq!(price_text("12"), "12");
}
