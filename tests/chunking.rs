use readtomyshoe::{break_english_text, break_greedily_at_delim, break_greedily_at_delims, ChunkError};

#[test]
fn text_breaking() {
    let text = "\
        Mr James Duffy lived in Chapelizod because he wished to live as far as possible from the \
        city of which he was a citizen and because he found all the other suburbs of Dublin mean, \
        modern and pretentious.
        He lived in an old sombre house and from his windows he could look into the disused \
        distillery or upwards along the shallow river on which Dublin is built. The lofty walls \
        of his uncarpeted room were free from pictures. He had himself bought every article of \
        furniture in the room: a black iron bedstead, an iron washstand, four cane chairs, a \
        clothes-rack, a coal-scuttle, a fender and irons and a square table on which lay a double \
        desk. A bookcase had been made in an alcove by means of shelves of white wood. The bed \
        was clothed with white bedclothes and a black and scarlet rug covered the foot. A little \
        hand-mirror hung above the washstand and during the day a white-shaded lamp stood as the \
        sole ornament of the mantelpiece. The books on the white wooden shelves were arranged \
        from below upwards according to bulk. A complete Wordsworth stood at one end of the \
        lowest shelf and a copy of the Maynooth Catechism, sewn into the cloth cover of a \
        notebook, stood at one end of the top shelf. Writing materials were always on the desk. \
        In the desk lay a manuscript translation of Hauptmann’s Michael Kramer, the stage \
        directions of which were written in purple ink, and a little sheaf of papers held \
        together by a brass pin. In these sheets a sentence was inscribed from time to time and, \
        in an ironical moment, the headline of an advertisement for Bile Beans had been pasted on \
        to the first sheet. On lifting the lid of the desk a faint fragrance escaped—the \
        fragrance of new cedarwood pencils or of a bottle of gum or of an overripe apple which \
        might have been left there and forgotten.\
    ";
    let chunk_size = 220;
    let chunks = break_english_text(text, chunk_size).unwrap();

    // Make sure the chunk sizes add up the the total text size, minus the delimiters which were
    // deleted (there's chunks.len() - 1 deleted delimiters).
    assert_eq!(
        chunks.iter().map(|c| c.len()).sum::<usize>(),
        text.len() - (chunks.len() - 1)
    );

    // Make sure the chunks are nontrivial and don't exceed the chunk_size
    for chunk in chunks {
        assert!(chunk.len() > 1);
        assert!(chunk.len() <= chunk_size);
    }

    //
    // Test for a short text sample
    //

    let text = "\
        Mr James Duffy lived in Chapelizod because he wished to live as far as possible from the \
        city of which he was a citizen and because he found all the other suburbs of Dublin mean, \
        modern and pretentious.\
    ";
    let chunks = break_english_text(text, chunk_size).unwrap();
    // Make sure there's just one chunk and it's the length of the whole text
    assert_eq!(chunks.len(), 1);
    assert_eq!(chunks[0].len(), text.len());
}

#[test]
fn example_scenario_chunks_rebuild_the_text() {
    let text = "A. B. C.";
    let chunks = break_greedily_at_delims(text, 5, &['.']).unwrap();
    assert_eq!(chunks, vec!["A. B".to_string(), " C.".to_string()]);
    for c in &chunks {
        assert!(c.len() <= 5);
    }
    // One '.' was dropped at the single cut.
    assert_eq!(format!("{}.{}", chunks[0], chunks[1]), text);
}

#[test]
fn empty_text_has_no_chunks() {
    assert_eq!(break_english_text("", 10).unwrap(), Vec::<String>::new());
    assert!(break_greedily_at_delim("", ',', 10).is_empty());
}

#[test]
fn short_text_is_one_chunk() {
    let text = "Hello there, world.";
    assert_eq!(break_english_text(text, 100).unwrap(), vec![text.to_string()]);
    // A text of exactly the limit is still a single chunk.
    assert_eq!(break_english_text(text, text.len()).unwrap(), vec![text.to_string()]);
}

#[test]
fn unbreakable_span_is_an_error() {
    let text = "abcdefghijklmnopqrstuvwxyz";
    assert_eq!(break_english_text(text, 10), Err(ChunkError::Unbreakable));
}

#[test]
fn leading_delimiter_leaves_no_empty_chunk() {
    // The span after the leading comma is too large to join it, so the cut falls at position 0.
    let chunks = break_greedily_at_delim(",abcdef,gh", ',', 4);
    assert_eq!(chunks, vec!["abcdef".to_string(), "gh".to_string()]);
    assert!(chunks.iter().all(|c| !c.is_empty()));
}

#[test]
fn later_delimiters_break_only_oversized_chunks() {
    let text = "aaa.bbb,ccc\ndd";
    let chunks = break_greedily_at_delims(text, 8, &['\n', '.', ',']).unwrap();
    assert_eq!(chunks, vec!["aaa".to_string(), "bbb,ccc".to_string(), "dd".to_string()]);
}

#[test]
fn sizes_count_utf8_bytes() {
    // Each 'é' takes two bytes, so "éé,éé" is nine bytes and must be cut at the comma.
    let chunks = break_greedily_at_delim("éé,éé", ',', 8);
    assert_eq!(chunks, vec!["éé".to_string(), "éé".to_string()]);
}
