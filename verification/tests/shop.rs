use cyberkent::shop::{shop_filter, ShopItem};

fn item(title: &str, tag: &str) -> ShopItem {
    ShopItem { title: title.to_string(), tag: tag.to_string() }
}

fn catalogue() -> Vec<ShopItem> {
    vec![
        item("CyberKent futbolka", "Kiyim"),
        item("Stiker to'plami", "Aksessuar"),
        item("Qalpoq", "kiyim"),
        item("USB Flesh 32GB", "Texnika"),
        item("Futbolka (qora)", "KIYIM"),
    ]
}

#[test]
fn no_query_and_no_tag_keep_everything() {
    assert_eq!(shop_filter(&catalogue(), "", ""), vec![0, 1, 2, 3, 4]);
}

#[test]
fn tag_ignores_case() {
    assert_eq!(shop_filter(&catalogue(), "", "kiyim"), vec![0, 2, 4]);
    assert_eq!(shop_filter(&catalogue(), "", "TEXNIKA"), vec![3]);
    assert_eq!(shop_filter(&catalogue(), "", "kiy"), Vec::<usize>::new());
}

#[test]
fn query_searches_titles_ignoring_case() {
    assert_eq!(shop_filter(&catalogue(), "FUTBOLKA", ""), vec![0, 4]);
    assert_eq!(shop_filter(&catalogue(), "gb", ""), vec![3]);
    assert_eq!(shop_filter(&catalogue(), "futbolka", "kiyim"), vec![0, 4]);
    assert_eq!(shop_filter(&catalogue(), "qalpoq", "texnika"), Vec::<usize>::new());
    assert_eq!(shop_filter(&catalogue(), "yo'q", ""), Vec::<usize>::new());
}
