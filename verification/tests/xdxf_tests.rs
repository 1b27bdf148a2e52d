//! End-to-end tests of the dictionary: loading the canonical fixture,
//! prefix lookup, normalization, and the failure taxonomy.
use xdxf::Xdxf;

static DICT_EXAMPLE: &str = "<?xml version=\"1.0\" encoding=\"UTF-8\" ?>
<xdxf lang_from=\"POL\" lang_to=\"RUS\" format=\"visual\">
    <full_name>Polish-Russian Dictionary</full_name>
    <description>Created by torkve, on the base of AndrewM's dictionary for SDictionary project</description>
    <abbreviations>
        <abr_def><k>f</k><v>rodzaj żeński</v></abr_def>
        <abr_def><k>m</k><v>rodzaj męski</v></abr_def>
        <abr_def><k>n</k><v>rodzaj nijaki</v></abr_def>
        <abr_def><k>rzecz.</k><v>rzeczownik</v></abr_def>
        <abr_def><k>przym.</k><v>przymiotnik</v></abr_def>
    </abbreviations>
    <ar><k>żółwi</k>
        żó<pos><abr>rzecz.</abr></pos>łw <i><abr>m</abr></i>
        черепаха <i><abr>f</abr></i>
        żó<pos><abr>przym.</abr></pos>łwi
        черепашечный
         <small><i>Biologiczny Przenośny</i></small> черепаший</ar>
    <ar><k>żółwica</k>
        żó<pos><abr>rzecz.</abr></pos>łwica <i><abr>f</abr></i>
        черепаха <i><abr>f</abr></i></ar>
</xdxf> 
";

#[test]
fn test_parser() {
    let dict = Xdxf::load_str(DICT_EXAMPLE).unwrap();
    assert_eq!(dict.abbreviation("m").unwrap(), "rodzaj męski");

    let nodes = dict.lookup("żół");
    assert_eq!(nodes.len(), 2);
    assert_eq!(nodes[0].0, "żółwi");
    // The acronym reordering relocates the stem letters trailing each
    // marker pair to the front of it, so the stems render whole.
    assert_eq!(nodes[0].1, "żółw<span class='partofspeech'><acronym title='rzeczownik'>rzecz.</acronym></span><i><acronym title='rodzaj męski'>m</acronym></i><br/>черепаха <i><acronym title='rodzaj żeński'>f</acronym></i><br/>żółwi<span class='partofspeech'><acronym title='przymiotnik'>przym.</acronym></span><br/>черепашечный<br/><small><i>Biologiczny Przenośny</i></small> черепаший");
}

#[test]
fn test_lookup_short_prefix() {
    let dict = Xdxf::load_str(DICT_EXAMPLE).unwrap();
    assert!(dict.lookup("").is_empty());
    assert!(dict.lookup("żó").is_empty());
    assert!(dict.lookup("ab").is_empty());
    let empty = Xdxf::new();
    assert!(empty.lookup("abc").is_empty());
}

#[test]
fn test_lookup_sorted_and_prefixed() {
    let dict = Xdxf::load_str(DICT_EXAMPLE).unwrap();
    let nodes = dict.lookup("żół");
    assert_eq!(nodes.len(), 2);
    assert_eq!(nodes[0].0, "żółwi");
    assert_eq!(nodes[1].0, "żółwica");
    for (headword, _) in &nodes {
        assert!(headword.starts_with("żół"));
    }
    for pair in nodes.windows(2) {
        assert!(pair[0].0 < pair[1].0);
    }
}

#[test]
fn test_round_trip_same_source() {
    let d1 = Xdxf::load_str(DICT_EXAMPLE).unwrap();
    let d2 = Xdxf::load_str(DICT_EXAMPLE).unwrap();
    assert_eq!(d1.lookup("żół"), d2.lookup("żół"));
    assert_eq!(d1.lookup("żółwic"), d2.lookup("żółwic"));
}

#[test]
fn test_feed_accumulates() {
    let mut dict = Xdxf::load_str(DICT_EXAMPLE).unwrap();
    let more = "<xdxf><ar><k>żółtko</k>yolk</ar></xdxf>";
    dict.feed_str(more).unwrap();
    let nodes = dict.lookup("żół");
    assert_eq!(nodes.len(), 3);
    assert_eq!(nodes[0].0, "żółtko");
    assert_eq!(nodes[1].0, "żółwi");
    assert_eq!(nodes[2].0, "żółwica");
}

#[test]
fn test_normalization_exact() {
    let mut first = true;
    let out = xdxf::replace_sps("a\n  b", &mut first);
    assert_eq!(out, "ab");
    assert!(!first);

    let mut later = false;
    let out2 = xdxf::replace_sps("a\n  b", &mut later);
    assert_eq!(out2, "a<br/>b");
    assert!(!later);

    let mut f3 = false;
    let out3 = xdxf::replace_sps("\tx\ny", &mut f3);
    assert_eq!(out3, "\tx\ny");

    let mut f4 = false;
    let out4 = xdxf::replace_sps("\t\nx", &mut f4);
    assert_eq!(out4, "\nx");
}

#[test]
fn test_normalization_idempotent() {
    let samples = ["a\n  b", "x \n\t y\nz", "\t\nx", "  leading", "tail   \n"];
    for s in samples {
        let mut f1 = false;
        let once = xdxf::replace_sps(s, &mut f1);
        let mut f2 = false;
        let twice = xdxf::replace_sps(once.as_str(), &mut f2);
        assert_eq!(once, twice);
    }
}

#[test]
fn test_undefined_abbreviation() {
    let src = "<xdxf><ar><k>kot</k><abr>zzz</abr></ar></xdxf>";
    match Xdxf::load_str(src) {
        Err(xdxf::XdxfError::UndefinedAbbreviation(key)) => assert_eq!(key, "zzz"),
        Err(other) => panic!("expected an undefined-abbreviation failure, got {:?}", other),
        Ok(_) => panic!("expected an undefined-abbreviation failure, got a dictionary"),
    }
}

#[test]
fn test_undefined_abbreviation_leaves_dictionary_unchanged() {
    let mut dict = Xdxf::load_str(DICT_EXAMPLE).unwrap();
    let bad = "<xdxf><ar><k>pies</k><abr>zzz</abr></ar></xdxf>";
    assert!(dict.feed_str(bad).is_err());
    assert!(dict.lookup("pie").is_empty());
    assert_eq!(dict.lookup("żół").len(), 2);
}

#[test]
fn test_abbreviation_value_then_key() {
    let src = "<xdxf><abbreviations><abr_def><v>rodzaj męski</v><k>m</k></abr_def></abbreviations></xdxf>";
    let dict = Xdxf::load_str(src).unwrap();
    assert_eq!(dict.abbreviation("m").unwrap(), "rodzaj męski");
}

#[test]
fn test_malformed_source() {
    match Xdxf::load_str("<<not markup") {
        Err(xdxf::XdxfError::Malformed) => {},
        Err(other) => panic!("expected a malformed-input failure, got {:?}", other),
        Ok(_) => panic!("expected a malformed-input failure, got a dictionary"),
    }
}

#[test]
fn test_unexpected_abbreviations_child() {
    let src = "<xdxf><abbreviations><wrong><k>m</k><v>x</v></wrong></abbreviations></xdxf>";
    match Xdxf::load_str(src) {
        Err(xdxf::XdxfError::Structure(msg)) => {
            assert_eq!(msg, "Unexpected abbreviations child");
        },
        Err(other) => panic!("expected a structure failure, got {:?}", other),
        Ok(_) => panic!("expected a structure failure, got a dictionary"),
    }
}

#[test]
fn test_abbreviation_child_count() {
    let src = "<xdxf><abbreviations><abr_def><k>m</k></abr_def></abbreviations></xdxf>";
    match Xdxf::load_str(src) {
        Err(xdxf::XdxfError::Structure(msg)) => {
            assert_eq!(msg, "Unexpected abbreviation child length");
        },
        Err(other) => panic!("expected a structure failure, got {:?}", other),
        Ok(_) => panic!("expected a structure failure, got a dictionary"),
    }
}

#[test]
fn test_headword_without_text() {
    let src = "<xdxf><ar><k><x/></k>body</ar></xdxf>";
    match Xdxf::load_str(src) {
        Err(xdxf::XdxfError::Structure(msg)) => {
            assert_eq!(msg, "Invalid node provided");
        },
        Err(other) => panic!("expected a structure failure, got {:?}", other),
        Ok(_) => panic!("expected a structure failure, got a dictionary"),
    }
}

#[test]
fn test_acronym_reordering() {
    // The letter run trailing the marker pair is moved before it, so the
    // headword-adjacent stem renders in front of the annotation.
    let src = "<xdxf><abbreviations><abr_def><k>rzecz.</k><v>rzeczownik</v></abr_def></abbreviations><ar><k>kot</k><pos><abr>rzecz.</abr></pos>kot</ar></xdxf>";
    let dict = Xdxf::load_str(src).unwrap();
    let nodes = dict.lookup("kot");
    assert_eq!(nodes.len(), 1);
    assert_eq!(
        nodes[0].1,
        "kot<span class='partofspeech'><acronym title='rzeczownik'>rzecz.</acronym></span>"
    );
}

#[test]
fn test_passthrough_drops_attributes() {
    let src = "<xdxf><ar><k>dom</k><big size=\"2\">dom</big></ar></xdxf>";
    let dict = Xdxf::load_str(src).unwrap();
    let nodes = dict.lookup("dom");
    assert_eq!(nodes.len(), 1);
    assert_eq!(nodes[0].1, "<big>dom</big>");
}

#[test]
fn test_duplicate_headword_overwrites() {
    let src = "<xdxf><ar><k>kot</k>one</ar><ar><k>kot</k>two</ar></xdxf>";
    let dict = Xdxf::load_str(src).unwrap();
    let nodes = dict.lookup("kot");
    assert_eq!(nodes.len(), 1);
    assert_eq!(nodes[0].1, "two");
}

#[test]
fn test_abbreviations_persist_across_feeds() {
    let defs = "<xdxf><abbreviations><abr_def><k>m</k><v>rodzaj męski</v></abr_def></abbreviations></xdxf>";
    let art = "<xdxf><ar><k>kot</k><abr>m</abr></ar></xdxf>";
    let mut dict = Xdxf::load_str(defs).unwrap();
    dict.feed_str(art).unwrap();
    let nodes = dict.lookup("kot");
    assert_eq!(nodes.len(), 1);
    assert_eq!(nodes[0].1, "<acronym title='rodzaj męski'>m</acronym>");
}

#[test]
fn test_explicit_break_only_in_phase() {
    // An explicit break emits the marker only while the line-break phase
    // lasts, and ends it; later break tags are dropped.
    let src = "<xdxf><ar><k>kot</k>x<br/>y<br/>z</ar></xdxf>";
    let dict = Xdxf::load_str(src).unwrap();
    let nodes = dict.lookup("kot");
    assert_eq!(nodes.len(), 1);
    assert_eq!(nodes[0].1, "x<br/>yz");
}
