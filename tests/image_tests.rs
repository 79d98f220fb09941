use mdp::image::{inline_image, print_osc, print_st, ImageCache, ImageError};

#[test]
fn get_after_put_returns_value() {
    let mut cache = ImageCache::new();
    cache.put("a.png".to_string(), "AAAA".to_string());
    assert_eq!(cache.get("a.png").unwrap(), "AAAA");
    cache.put("a.png".to_string(), "BBBB".to_string());
    assert_eq!(cache.get("a.png").unwrap(), "BBBB");
}

#[test]
fn get_of_unset_key_is_none() {
    let mut cache = ImageCache::new();
    assert!(cache.get("none.png").is_none());
    cache.put("a.png".to_string(), "AAAA".to_string());
    assert!(cache.get("b.png").is_none());
}

#[test]
fn distinct_puts_are_all_kept() {
    let mut cache = ImageCache::new();
    for i in 0..16 {
        cache.put(format!("img{}.png", i), format!("data{}", i));
    }
    for i in 0..16 {
        assert_eq!(cache.get(&format!("img{}.png", i)).unwrap(), &format!("data{}", i));
    }
}

#[test]
fn put_image_stores_base64() {
    let mut cache = ImageCache::new();
    cache.put_image("x".to_string(), b"hello");
    assert_eq!(cache.get("x").unwrap(), "aGVsbG8=");
    cache.put_image("empty".to_string(), b"");
    assert_eq!(cache.get("empty").unwrap(), "");
    cache.put_image("three".to_string(), &[0xff, 0x00, 0x10]);
    assert_eq!(cache.get("three").unwrap(), "/wAQ");
}

#[test]
fn inline_image_writes_escape() {
    let mut cache = ImageCache::new();
    cache.put_image("p.png".to_string(), b"hi");
    let mut out = String::new();
    assert!(inline_image(&mut out, &cache, "p.png", true).is_ok());
    assert_eq!(out, "\u{1b}]1337;File=inline=1:aGk=\u{7}\n");
}

#[test]
fn inline_image_errors() {
    let mut cache = ImageCache::new();
    cache.put_image("p.png".to_string(), b"hi");
    let mut out = String::new();
    assert!(matches!(inline_image(&mut out, &cache, "p.png", false), Err(ImageError::NotSupported)));
    assert!(matches!(inline_image(&mut out, &cache, "q.png", true), Err(ImageError::NotFound)));
    assert_eq!(out, "");
}

#[test]
fn osc_and_st() {
    let mut out = String::new();
    print_osc(&mut out);
    print_st(&mut out);
    assert_eq!(out, "\u{1b}]\u{7}");
}
