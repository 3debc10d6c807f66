use layout::embed::{Embed, EmbedElem, EmbeddedFileRelationship};
use layout::frame::{layout_embedding, Element};
use layout::geom::Size;

#[test]
fn name_falls_back_to_path() {
    let elem = EmbedElem::new(String::from("report.csv"), vec![1, 2, 3]);
    let embed = Embed::from_element(elem);
    assert_eq!(embed.name(), "report.csv");
    assert_eq!(embed.path(), "report.csv");
    assert_eq!(embed.data(), &vec![1, 2, 3]);
    assert_eq!(embed.description(), &None);
    assert_eq!(embed.mime_type(), &None);
    assert_eq!(embed.relationship(), None);
}

#[test]
fn explicit_name_wins_over_path() {
    let elem = EmbedElem::decode(
        String::from("data.bin"),
        vec![9],
        Some(Some(String::from("readings"))),
        Some(Some(String::from("raw readings"))),
        Some(Some(String::from("text/csv"))),
        Some(Some(EmbeddedFileRelationship::Supplement)),
    );
    let embed = Embed::from_element(elem);
    assert_eq!(embed.name(), "readings");
    assert_eq!(embed.path(), "data.bin");
    assert_eq!(embed.description(), &Some(String::from("raw readings")));
    assert_eq!(embed.mime_type(), &Some(String::from("text/csv")));
    assert_eq!(embed.relationship(), Some(EmbeddedFileRelationship::Supplement));
}

#[test]
fn explicitly_unset_fields_resolve_to_nothing() {
    let elem = EmbedElem::decode(
        String::from("a.txt"),
        vec![],
        Some(None),
        Some(None),
        Some(None),
        Some(None),
    );
    let embed = Embed::from_element(elem);
    // An explicitly unset name falls back to the path as well.
    assert_eq!(embed.name(), "a.txt");
    assert_eq!(embed.description(), &None);
    assert_eq!(embed.mime_type(), &None);
    assert_eq!(embed.relationship(), None);
}

#[test]
fn embedding_occupies_no_space() {
    let elem = EmbedElem::new(String::from("invoice.xml"), vec![60, 63]);
    let frame = layout_embedding(elem);
    assert_eq!(frame.size, Size::new(0, 0));
    assert_eq!(frame.items.len(), 1);
    match &frame.items[0].element {
        Element::Embed(e) => {
            assert_eq!(e.name(), "invoice.xml");
            assert_eq!(e.data(), &vec![60, 63]);
        },
        other => panic!("expected an embedding, got {:?}", other),
    }
}

#[test]
fn embed_clone_preserves_fields() {
    let elem = EmbedElem::new(String::from("x"), vec![5, 6]);
    let embed = Embed::from_element(elem);
    let copy = embed.clone();
    assert_eq!(embed, copy);
}
