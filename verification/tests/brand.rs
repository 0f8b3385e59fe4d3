use zenith::brand::{merge_brand_contract, BrandContract};
use zenith::span::Span;

fn colors(hexes: &[&str]) -> BrandContract {
    BrandContract {
        allowed_colors: Some(hexes.iter().map(|s| s.to_string()).collect()),
        ..Default::default()
    }
}

fn fonts(names: &[&str]) -> BrandContract {
    BrandContract {
        allowed_fonts: Some(names.iter().map(|s| s.to_string()).collect()),
        ..Default::default()
    }
}

fn full(colors: &[&str], fonts: &[&str], weights: &[u32]) -> BrandContract {
    BrandContract {
        allowed_colors: Some(colors.iter().map(|s| s.to_string()).collect()),
        allowed_fonts: Some(fonts.iter().map(|s| s.to_string()).collect()),
        allowed_weights: Some(weights.to_vec()),
        source_span: None,
    }
}

#[test]
fn both_empty_yields_empty() {
    let result = merge_brand_contract(&BrandContract::default(), &BrandContract::default());
    assert!(result.is_empty());
}

#[test]
fn over_wins_per_category() {
    let base = full(&["#000000"], &["Arial"], &[400]);
    let over = full(&["#ffffff"], &["Roboto"], &[700]);
    let result = merge_brand_contract(&base, &over);
    assert_eq!(result.allowed_colors, Some(vec!["#ffffff".to_owned()]));
    assert_eq!(result.allowed_fonts, Some(vec!["Roboto".to_owned()]));
    assert_eq!(result.allowed_weights, Some(vec![700u32]));
}

#[test]
fn absent_category_in_over_falls_back_to_base() {
    let base = full(&["#000000"], &["Arial"], &[400]);
    let over = colors(&["#ffffff"]);
    let result = merge_brand_contract(&base, &over);
    assert_eq!(result.allowed_colors, Some(vec!["#ffffff".to_owned()]));
    assert_eq!(result.allowed_fonts, Some(vec!["Arial".to_owned()]));
    assert_eq!(result.allowed_weights, Some(vec![400u32]));
}

#[test]
fn empty_over_is_identity() {
    let base = full(&["#abc"], &["Noto Sans"], &[300, 400]);
    let result = merge_brand_contract(&base, &BrandContract::default());
    assert_eq!(result.allowed_colors, base.allowed_colors);
    assert_eq!(result.allowed_fonts, base.allowed_fonts);
    assert_eq!(result.allowed_weights, base.allowed_weights);
}

#[test]
fn empty_base_with_over_yields_over() {
    let over = fonts(&["Helvetica"]);
    let result = merge_brand_contract(&BrandContract::default(), &over);
    assert_eq!(result.allowed_fonts, Some(vec!["Helvetica".to_owned()]));
    assert!(result.allowed_colors.is_none());
    assert!(result.allowed_weights.is_none());
}

#[test]
fn chained_merge_is_transitive() {
    let global = colors(&["#111111"]);
    let local = fonts(&["Roboto"]);
    let doc = BrandContract {
        allowed_weights: Some(vec![400u32]),
        ..Default::default()
    };
    let effective = merge_brand_contract(&merge_brand_contract(&global, &local), &doc);
    assert_eq!(effective.allowed_colors, Some(vec!["#111111".to_owned()]));
    assert_eq!(effective.allowed_fonts, Some(vec!["Roboto".to_owned()]));
    assert_eq!(effective.allowed_weights, Some(vec![400u32]));
}

#[test]
fn merge_takes_span_from_over_then_base() {
    let mut base = colors(&["#000000"]);
    base.source_span = Some(Span { start: 1, end: 2 });
    let mut over = fonts(&["Inter"]);
    assert_eq!(merge_brand_contract(&base, &over).source_span, Some(Span { start: 1, end: 2 }));
    over.source_span = Some(Span { start: 5, end: 9 });
    assert_eq!(merge_brand_contract(&base, &over).source_span, Some(Span { start: 5, end: 9 }));
}

#[test]
fn empty_list_is_a_constraint_not_an_absence() {
    let base = colors(&["#000000"]);
    let over = colors(&[]);
    let result = merge_brand_contract(&base, &over);
    assert_eq!(result.allowed_colors, Some(vec![]));
    assert!(!result.is_empty());
}
