use amongus_timeline::{parse_value, Endpoint, ParseError};

const EXAMPLE: &str = "https://i.ytimg.com/sb/ID/storyboard3_L$L/$N.jpg?sqp=TOKEN|48#27#100#10#10#0#default#SIGA|80#45#108#10#10#2000#M$M#SIGB|160#90#108#5#5#2000#M$M#SIGC";

fn parse(s: &str) -> Result<Vec<Endpoint>, ParseError> {
    parse_value(s.to_string())
}

#[test]
fn example_descriptor_has_three_tiers() {
    let tiers = parse(EXAMPLE).unwrap();
    assert_eq!(tiers.len(), 3);
    let t = &tiers[2];
    assert_eq!(t.image_width(), 160);
    assert_eq!(t.image_height(), 90);
    assert_eq!(t.width(), 5);
    assert_eq!(t.height(), 5);
    assert_eq!(t.sigh(), "SIGC");
    assert_eq!(t.start(), "https://i.ytimg.com/sb/ID/storyboard3_L");
    assert_eq!(t.sqp(), "TOKEN");
    let t0 = &tiers[0];
    assert_eq!((t0.image_width(), t0.image_height(), t0.width(), t0.height()), (48, 27, 10, 10));
    assert_eq!(t0.sigh(), "SIGA");
    assert_eq!(tiers[1].sigh(), "SIGB");
}

#[test]
fn tiers_are_numbered_by_position() {
    let tiers = parse(EXAMPLE).unwrap();
    for (i, t) in tiers.iter().enumerate() {
        assert_eq!(t.number(), i);
    }
    let one = parse("a$L/$N.jpg?sqp=b|1#2#x#3#4#y#z#s").unwrap();
    assert_eq!(one.len(), 1);
    assert_eq!(one[0].number(), 0);
}

#[test]
fn no_pipe_is_empty_descriptor() {
    assert_eq!(parse("").unwrap_err(), ParseError::EmptyDescriptor);
    assert_eq!(parse("no-pipe-here").unwrap_err(), ParseError::EmptyDescriptor);
    assert_eq!(parse("a$L/$N.jpg?sqp=b").unwrap_err(), ParseError::EmptyDescriptor);
}

#[test]
fn head_without_marker_is_malformed() {
    assert_eq!(parse("https://x/y|1#2#3#4#5#6#7#8").unwrap_err(), ParseError::MalformedHead);
    assert_eq!(parse("|1#2#3#4#5#6#7#8").unwrap_err(), ParseError::MalformedHead);
}

#[test]
fn head_with_two_markers_is_malformed() {
    assert_eq!(
        parse("a$L/$N.jpg?sqp=b$L/$N.jpg?sqp=c|1#2#3#4#5#6#7#8").unwrap_err(),
        ParseError::MalformedHead
    );
}

#[test]
fn head_only_marker_gives_empty_parts() {
    let tiers = parse("$L/$N.jpg?sqp=|1#2#3#4#5#6#7#8").unwrap();
    assert_eq!(tiers[0].start(), "");
    assert_eq!(tiers[0].sqp(), "");
}

#[test]
fn missing_fields_are_reported_in_order() {
    assert_eq!(parse("a$L/$N.jpg?sqp=b|1").unwrap_err(), ParseError::MissingField(0, 1));
    assert_eq!(parse("a$L/$N.jpg?sqp=b|1#2#3").unwrap_err(), ParseError::MissingField(0, 3));
    assert_eq!(parse("a$L/$N.jpg?sqp=b|1#2#3#4").unwrap_err(), ParseError::MissingField(0, 4));
    assert_eq!(
        parse("a$L/$N.jpg?sqp=b|1#2#3#4#5#6#7").unwrap_err(),
        ParseError::MissingField(0, 7)
    );
    assert_eq!(
        parse("a$L/$N.jpg?sqp=b|1#2#3#4#5#6#7#8|9#9").unwrap_err(),
        ParseError::MissingField(1, 3)
    );
}

#[test]
fn bad_numbers_are_reported() {
    assert_eq!(parse("a$L/$N.jpg?sqp=b|x#2#3#4#5#6#7#8").unwrap_err(), ParseError::NotANumber(0, 0));
    assert_eq!(parse("a$L/$N.jpg?sqp=b|1#256#3#4#5#6#7#8").unwrap_err(), ParseError::NotANumber(0, 1));
    assert_eq!(parse("a$L/$N.jpg?sqp=b|1#2#3#-4#5#6#7#8").unwrap_err(), ParseError::NotANumber(0, 3));
    assert_eq!(parse("a$L/$N.jpg?sqp=b|1#2#3#4##6#7#8").unwrap_err(), ParseError::NotANumber(0, 4));
    assert_eq!(parse("a$L/$N.jpg?sqp=b|").unwrap_err(), ParseError::NotANumber(0, 0));
    // a bad number comes before a missing field of the same tier
    assert_eq!(parse("a$L/$N.jpg?sqp=b|z").unwrap_err(), ParseError::NotANumber(0, 0));
}

#[test]
fn numbers_follow_unsigned_byte_syntax() {
    let t = parse("a$L/$N.jpg?sqp=b|+7#007#x#255#0#y#z#sig#extra").unwrap();
    assert_eq!(t[0].image_width(), 7);
    assert_eq!(t[0].image_height(), 7);
    assert_eq!(t[0].width(), 255);
    assert_eq!(t[0].height(), 0);
    assert_eq!(t[0].sigh(), "sig");
    assert_eq!(parse("a$L/$N.jpg?sqp=b|+#1#x#1#1#y#z#s").unwrap_err(), ParseError::NotANumber(0, 0));
    assert_eq!(parse("a$L/$N.jpg?sqp=b|1000#1#x#1#1#y#z#s").unwrap_err(), ParseError::NotANumber(0, 0));
}

#[test]
fn sheet_url_of_a_tier() {
    let tiers = parse(EXAMPLE).unwrap();
    assert_eq!(
        tiers[2].sheet_url(13),
        "https://i.ytimg.com/sb/ID/storyboard3_L2/M13.jpg?sqp=TOKEN&sigh=SIGC"
    );
    assert_eq!(
        tiers[0].sheet_url(0),
        "https://i.ytimg.com/sb/ID/storyboard3_L0/M0.jpg?sqp=TOKEN&sigh=SIGA"
    );
}

#[test]
fn tiles_are_laid_out_row_by_row() {
    let tiers = parse(EXAMPLE).unwrap();
    let t = &tiers[2];
    assert_eq!(t.sheet_size(), (800, 450));
    let rects = t.tile_rects();
    assert_eq!(rects.len(), 25);
    assert_eq!(rects[0], (0, 0, 160, 90));
    assert_eq!(rects[1], (160, 0, 160, 90));
    assert_eq!(rects[5], (0, 90, 160, 90));
    assert_eq!(rects[24], (640, 360, 160, 90));
}

#[test]
fn empty_grid_has_no_tiles() {
    let t = parse("a$L/$N.jpg?sqp=b|160#90#x#0#5#y#z#s").unwrap();
    assert_eq!(t[0].tile_rects().len(), 0);
}
