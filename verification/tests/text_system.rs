use cool_scroll::text_system::{
    family_stack, first_resolved, resolve_name, resolved_family, wrap_boundary_for_byte,
};
use parley::fontique::{Collection, CollectionOptions};

#[test]
fn a_stack_lists_its_trimmed_names_in_order() {
    assert_eq!(
        family_stack("IBM Plex Sans, Inter ,sans-serif"),
        vec!["IBM Plex Sans".to_owned(), "Inter".to_owned(), "sans-serif".to_owned()]
    );
    assert_eq!(family_stack(" , ,Mono,, "), vec!["Mono".to_owned()]);
    assert!(family_stack("").is_empty());
    assert!(family_stack(" ,\t, ").is_empty());
    assert_eq!(family_stack("Noto Serif CJK"), vec!["Noto Serif CJK".to_owned()]);
}

#[test]
fn a_name_resolves_as_the_collection_answers() {
    assert_eq!(resolve_name("serif", Some(Some("DejaVu Serif".to_owned())), false), Some("DejaVu Serif".to_owned()));
    assert_eq!(resolve_name("serif", Some(None), true), None);
    assert_eq!(resolve_name("Inter", None, true), Some("Inter".to_owned()));
    assert_eq!(resolve_name("Inter", None, false), None);
}

#[test]
fn an_empty_collection_resolves_nothing() {
    let mut collection = Collection::new(CollectionOptions {
        shared: false,
        system_fonts: false,
    });
    assert_eq!(resolved_family(&mut collection, "Arial, sans-serif, monospace"), None);
    assert_eq!(resolved_family(&mut collection, ""), None);
    assert_eq!(resolved_family(&mut collection, " , "), None);
}

#[test]
fn the_wrap_boundary_is_the_first_glyph_at_the_byte() {
    let runs = vec![vec![0, 1, 1, 3], vec![5, 5, 9], vec![], vec![12]];
    assert_eq!(wrap_boundary_for_byte(&runs, 0), Some((0, 0)));
    assert_eq!(wrap_boundary_for_byte(&runs, 1), Some((0, 1)));
    assert_eq!(wrap_boundary_for_byte(&runs, 5), Some((1, 0)));
    assert_eq!(wrap_boundary_for_byte(&runs, 12), Some((3, 0)));
    assert_eq!(wrap_boundary_for_byte(&runs, 2), None);
    assert_eq!(wrap_boundary_for_byte(&Vec::new(), 0), None);
}

#[test]
fn the_host_fonts_resolve_a_stack_in_order() {
    let mut collection = Collection::new(CollectionOptions {
        shared: false,
        system_fonts: true,
    });
    let names: Vec<String> = collection.family_names().map(str::to_owned).collect();
    if let Some(first) = names.first() {
        let stack = format!("No Such Family Anywhere, {first}, serif");
        assert_eq!(resolved_family(&mut collection, &stack), Some(first.clone()));
    }
    let first_id = collection
        .generic_families(parley::fontique::GenericFamily::SansSerif)
        .next();
    let generic = first_id.and_then(|id| collection.family_name(id).map(str::to_owned));
    // A generic name answers with the first family it stands for, in any case.
    assert_eq!(resolved_family(&mut collection, "No Such Family Anywhere, SANS-SERIF"), generic);
}

#[test]
fn the_first_name_that_resolves_wins() {
    let answers = vec![None, Some("Inter".to_owned()), Some("Arial".to_owned())];
    assert_eq!(first_resolved(&answers), Some("Inter".to_owned()));
    assert_eq!(first_resolved(&vec![None, None]), None);
    assert_eq!(first_resolved(&Vec::new()), None);
}
