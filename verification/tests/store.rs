//! Reads stores that are written here, section by section, and checks them against what was written.

use den_core::blake2::blake2b64;
use den_core::element::in_store_order;
use den_core::store::{
    counted_column, list_over, studios_over, table_from, Row, Store, StoreError, StoreTable, FACET_AXES, FORMAT_VERSION, MAGIC, NONE_I16, NONE_U32,
    OLDEST_FORMAT_VERSION,
};
use serde_json::Value;
use zerocopy::IntoBytes;

/// A store in memory, where eight-byte numbers may lie.
struct Fixture {
    words: Vec<u64>,
}

impl Fixture {
    fn bytes(&self) -> &[u8] {
        self.words.as_bytes()
    }
}

/// A section: its name, the width of its elements, and its bytes.
type Section = (&'static str, u32, Vec<u8>);

fn u16s(values: &[u16]) -> Vec<u8> {
    values.iter().flat_map(|v| v.to_le_bytes()).collect()
}

fn i16s(values: &[i16]) -> Vec<u8> {
    values.iter().flat_map(|v| v.to_le_bytes()).collect()
}

fn u32s(values: &[u32]) -> Vec<u8> {
    values.iter().flat_map(|v| v.to_le_bytes()).collect()
}

fn i32s(values: &[i32]) -> Vec<u8> {
    values.iter().flat_map(|v| v.to_le_bytes()).collect()
}

fn u64s(values: &[u64]) -> Vec<u8> {
    values.iter().flat_map(|v| v.to_le_bytes()).collect()
}

fn i64s(values: &[i64]) -> Vec<u8> {
    values.iter().flat_map(|v| v.to_le_bytes()).collect()
}

fn i8s(values: &[i8]) -> Vec<u8> {
    values.iter().map(|v| *v as u8).collect()
}

/// The blob and the offsets of a string table.
fn string_table(strings: &[&str]) -> (Vec<u8>, Vec<u8>) {
    let mut blob = Vec::new();
    let mut offsets = vec![0u32];
    for s in strings {
        blob.extend_from_slice(s.as_bytes());
        offsets.push(blob.len() as u32);
    }
    (blob, u32s(&offsets))
}

/// Puts the content hash of a file into its header.
fn seal(bytes: &mut [u8]) {
    let hash = blake2b64(&bytes[64..]);
    bytes[16..24].copy_from_slice(&hash.to_le_bytes());
}

/// Moves a file to where eight-byte numbers may lie.
fn aligned(bytes: &[u8]) -> Fixture {
    assert_eq!(bytes.len() % 8, 0);
    Fixture {
        words: bytes
            .chunks(8)
            .map(|c| u64::from_ne_bytes(c.try_into().unwrap()))
            .collect(),
    }
}

/// The bytes of a store.
fn file(version: u32, rows: u32, dataset: &str, sections: &[Section]) -> Vec<u8> {
    let mut body = vec![0u8; 32 * sections.len()];
    for (i, (name, width, data)) in sections.iter().enumerate() {
        while body.len() % 8 != 0 {
            body.push(0);
        }
        let offset = 64 + body.len() as u64;
        body.extend_from_slice(data);
        let entry = &mut body[32 * i..32 * i + 32];
        entry[..name.len()].copy_from_slice(name.as_bytes());
        entry[16..24].copy_from_slice(&offset.to_le_bytes());
        entry[24..28].copy_from_slice(&(data.len() as u32).to_le_bytes());
        entry[28..32].copy_from_slice(&width.to_le_bytes());
    }
    while body.len() % 8 != 0 {
        body.push(0);
    }
    let mut bytes = vec![0u8; 64];
    bytes[..8].copy_from_slice(&MAGIC);
    bytes[8..12].copy_from_slice(&version.to_le_bytes());
    bytes[12..16].copy_from_slice(&0x0102_0304u32.to_le_bytes());
    bytes[24..28].copy_from_slice(&(sections.len() as u32).to_le_bytes());
    bytes[28..32].copy_from_slice(&rows.to_le_bytes());
    bytes[32..32 + dataset.len()].copy_from_slice(dataset.as_bytes());
    bytes.extend_from_slice(&body);
    seal(&mut bytes);
    bytes
}

fn store(version: u32, rows: u32, sections: &[Section]) -> Fixture {
    aligned(&file(version, rows, "2026.1", sections))
}

const STRINGS: [&str; 11] = [
    "Alpha",
    "Gamma",
    "drama",
    "Cy Actor",
    "Cyrus Actor",
    "Ana Director",
    "contemporary",
    "urban",
    "slow",
    "Cy",
    "bleak",
];

/// What the version 2 store holds.
const VECTORS: &str = r#"{
  "header": {"rowCount": 3, "datasetVersion": "2026.07", "formatVersion": 2, "bytes": 1448},
  "rows": [
    {"row": 0, "key": "movie:1", "media": 0, "tmdbId": 1, "franchise": [114, 105],
     "cardTitle": "Alpha", "cardYear": 2000, "scores": {"intensity": 321}, "genres": [18, 9648],
     "released": 10957, "releasedPrecision": 3,
     "facets": {"era": ["contemporary", 90], "setting": ["urban", 80], "pacing": ["slow", 70]},
     "facetsAbsent": ["ending", "archetype"],
     "hasPlotVector": true, "hasPremiseVector": true},
    {"row": 1, "key": "movie:2", "media": 0, "tmdbId": 2, "franchise": [],
     "cardTitle": null, "released": null, "genres": [],
     "facetsAbsent": ["era", "setting", "scope"],
     "hasPlotVector": false, "hasPremiseVector": false},
    {"row": 2, "key": "tv:10", "media": 1, "tmdbId": 10, "franchise": [],
     "cardTitle": "Gamma", "cardYear": 1987, "scores": {"intensity": 150}, "genres": [10765, 878],
     "released": -4000, "releasedPrecision": 1,
     "facets": {"tone": ["bleak", 55], "archetype": ["drama", 12]},
     "facetsAbsent": ["era"],
     "hasPlotVector": true, "hasPremiseVector": false}
  ],
  "entities": [
    {"qid": 500, "name": "Cy Actor", "tmdbPersonId": 77, "aliases": ["Cyrus Actor", "Cy"]},
    {"qid": 501, "name": "Ana Director", "tmdbPersonId": null, "aliases": []}
  ]
}"#;

fn version_two() -> (Fixture, Value) {
    let (blob, offsets) = string_table(&STRINGS);
    let mut facet_v = vec![NONE_U32; 36];
    let mut facet_c = vec![0u8; 36];
    for (at, value, confidence) in [
        (0, 6, 90),
        (1, 7, 80),
        (4, 8, 70),
        (24 + 9, 10, 55),
        (24 + 11, 2, 12),
    ] {
        facet_v[at] = value;
        facet_c[at] = confidence;
    }
    let sections: Vec<Section> = vec![
        ("keys", 8, u64s(&[1, 2, (1 << 32) | 10])),
        ("strings", 1, blob),
        ("str_off", 4, offsets),
        ("card_title", 4, u32s(&[0, NONE_U32, 1])),
        ("card_year", 2, i16s(&[2000, NONE_I16, 1987])),
        ("score_intensity", 2, u16s(&[321, 0, 150])),
        ("genres_v", 4, u32s(&[18, 9648, 10765, 878])),
        ("genres_o", 4, u32s(&[0, 2, 2, 4])),
        ("primary_genre", 4, u32s(&[2, NONE_U32, 2])),
        ("makers_v", 4, u32s(&[1, 0, 1])),
        ("makers_o", 4, u32s(&[0, 2, 2, 3])),
        ("released", 4, i32s(&[10957, i32::MIN, -4000])),
        ("released_prec", 1, vec![3, 0, 1]),
        ("facet_v", 4, u32s(&facet_v)),
        ("facet_c", 1, facet_c),
        (
            "vec_plot",
            1,
            i8s(&[1, 1, 1, 1, 0, 0, 0, 0, -3, -3, -3, -3]),
        ),
        ("vec_premise_has", 1, vec![1, 0, 0]),
        (
            "vec_premise",
            1,
            i8s(&[5, 5, 5, 5, 0, 0, 0, 0, 0, 0, 0, 0]),
        ),
        ("franchise_v", 4, u32s(&[114, 105])),
        ("franchise_o", 4, u32s(&[0, 2, 2, 2])),
        ("ent_qid", 4, u32s(&[500, 501])),
        ("ent_name", 4, u32s(&[3, 5])),
        ("ent_tmdb", 4, u32s(&[77, NONE_U32])),
        ("ent_alias_v", 4, u32s(&[4, 9])),
        ("ent_alias_o", 4, u32s(&[0, 2, 2])),
    ];
    (
        aligned(&file(2, 3, "2026.07", &sections)),
        serde_json::from_str(VECTORS).unwrap(),
    )
}

fn version_one() -> Fixture {
    store(
        1,
        3,
        &[
            ("keys", 8, u64s(&[1, 2, (1 << 32) | 10])),
            ("franchise", 4, u32s(&[105, NONE_U32, NONE_U32])),
        ],
    )
}

#[test]
fn blake2b64_matches_the_writers_digest() {
    assert_eq!(
        blake2b64(b"").to_le_bytes(),
        [228, 166, 160, 87, 116, 121, 178, 180]
    );
    assert_eq!(
        blake2b64(b"abc").to_le_bytes(),
        [216, 187, 20, 216, 51, 213, 149, 89]
    );
    // A block boundary and one past it: the counter and the final-block flag are the easy things to
    // get wrong, and neither shows up on a short input.
    assert_eq!(
        blake2b64(&[0x61; 128]).to_le_bytes(),
        [240, 102, 67, 254, 156, 126, 24, 218]
    );
    assert_eq!(
        blake2b64(&[0x61; 129]).to_le_bytes(),
        [228, 98, 83, 91, 176, 197, 162, 153]
    );
}

#[test]
fn refuses_a_store_that_is_not_one() {
    assert_eq!(
        Store::open(b"short").err().unwrap(),
        StoreError::TooSmall { need: 64, got: 5 }
    );
    let mut bytes = vec![0u8; 64];
    assert_eq!(Store::open(&bytes).err().unwrap(), StoreError::BadMagic);
    bytes[..8].copy_from_slice(&MAGIC);
    bytes[8..12].copy_from_slice(&99u32.to_le_bytes());
    assert_eq!(
        Store::open(&bytes).err().unwrap(),
        StoreError::Version {
            found: 99,
            expected: FORMAT_VERSION
        }
    );
    // Both ends of the accepted range are exact: one past the newest and one before the oldest
    // are refused by their version, before anything else about the file is looked at.
    for found in [FORMAT_VERSION + 1, OLDEST_FORMAT_VERSION - 1] {
        bytes[8..12].copy_from_slice(&found.to_le_bytes());
        let err = Store::open(&bytes).err().unwrap();
        assert_eq!(
            err,
            StoreError::Version {
                found,
                expected: FORMAT_VERSION
            }
        );
        assert_eq!(
            err.to_string(),
            format!("store format version {found}, this build reads 1 to 2")
        );
    }
}

#[test]
fn header_matches_the_spec_vectors() {
    let (fixture, expected) = version_two();
    let bytes = fixture.bytes();
    let store = Store::open(bytes).expect("the fixture opens");
    let header = &expected["header"];

    assert_eq!(store.rows() as u64, header["rowCount"].as_u64().unwrap());
    assert_eq!(
        store.dataset_version(),
        header["datasetVersion"].as_str().unwrap()
    );
    assert_eq!(bytes.len() as u64, header["bytes"].as_u64().unwrap());
    assert_eq!(
        FORMAT_VERSION as u64,
        header["formatVersion"].as_u64().unwrap(),
        "this build reads a different format version than the fixture was written with"
    );
    assert_eq!(
        store.format_version() as u64,
        header["formatVersion"].as_u64().unwrap()
    );
}

/// `franchise` is a list, every series in the facts' order, most specific first. The fixture's movie:1 is in
/// two, written Q114 then Q105, so a reader that sorted them, or kept only one, fails here.
#[test]
fn franchise_is_every_series_in_order() {
    let (fixture, expected) = version_two();
    let store = Store::open(fixture.bytes()).expect("opens");
    assert_eq!(store.format_version(), 2);
    let franchises = store.franchises().expect("franchise_v / franchise_o");
    assert!(
        store.per_row::<u32>("franchise").is_err(),
        "store-v2 has no single-valued franchise column"
    );
    for row in expected["rows"].as_array().unwrap() {
        let i = row["row"].as_u64().unwrap() as usize;
        let want: Vec<u32> = row["franchise"]
            .as_array()
            .unwrap_or_else(|| panic!("{} states its franchise list", row["key"]))
            .iter()
            .map(|q| q.as_u64().unwrap() as u32)
            .collect();
        assert_eq!(
            franchises.get(Row(i)),
            want.as_slice(),
            "{} franchise",
            row["key"]
        );
    }
    assert!(franchises.get(Row(usize::MAX)).is_empty());
}

/// A version 1 store still opens, and its single `franchise` column reads as a list of zero or one.
#[test]
fn a_store_v1_file_reads_its_franchise_as_a_list_of_one() {
    let fixture = version_one();
    let store = Store::open(fixture.bytes()).expect("a v1 store is still read");
    assert_eq!(store.format_version(), 1);
    let franchises = store.franchises().expect("v1's franchise column");
    // movie:1 was written with Q105, and the other two with none.
    let row = |media, id| store.row_of(media, id).unwrap().expect("in the fixture");
    assert_eq!(franchises.get(row(0, 1)), &[105]);
    assert!(franchises.get(row(0, 2)).is_empty(), "u32::MAX is none");
    assert!(franchises.get(row(1, 10)).is_empty());
    assert!(franchises.get(Row(store.rows())).is_empty());
    assert!(
        store.list::<u32>("franchise_v", "franchise_o").is_err(),
        "a v1 store has no list"
    );
}

#[test]
fn a_flipped_bit_is_refused() {
    let (fixture, _) = version_two();
    let mut corrupt = fixture.bytes().to_vec();
    // Past the header, so the hash is the only thing that can catch it.
    let at = corrupt.len() / 2;
    corrupt[at] ^= 0x01;
    assert!(
        matches!(
            Store::open(aligned(&corrupt).bytes()),
            Err(StoreError::Corrupt { .. })
        ),
        "a single flipped bit past the header must be refused, not read"
    );
}

#[test]
fn rows_are_sorted_by_packed_key_and_findable() {
    let (fixture, expected) = version_two();
    let store = Store::open(fixture.bytes()).expect("opens");
    for row in expected["rows"].as_array().unwrap() {
        let media = row["media"].as_u64().unwrap() as u8;
        let tmdb = row["tmdbId"].as_u64().unwrap() as u32;
        let found = store.row_of(media, tmdb).expect("keys readable");
        assert_eq!(
            found.map(|r| r.0),
            Some(row["row"].as_u64().unwrap() as usize),
            "{} should be at the row the vectors say",
            row["key"].as_str().unwrap()
        );
    }
    // Movie rows precede tv rows because the media bit is the high half of the packed key.
    let keys = store.per_row::<u64>("keys").unwrap();
    assert!(
        keys.windows(2).all(|w| w[0] < w[1]),
        "keys must be strictly ascending"
    );
}

/// `card_poster` is an optional section: a store without it reads as having no posters, and the paths are
/// not in the file at all.
#[test]
fn a_store_without_the_optional_poster_section_reads_as_having_no_posters() {
    let (fixture, _) = version_two();
    let bytes = fixture.bytes();
    let store = Store::open(bytes).expect("opens");
    assert!(
        store.per_row::<u32>("card_poster").is_err(),
        "the fixture still carries card_poster, so this contract is untested"
    );
    assert!(
        store.per_row::<u32>("votes").is_err(),
        "the fixture still carries votes, so nothing here proves a reader can do without it"
    );
    // Everything else about a card is unaffected by its absence.
    assert_eq!(
        store.per_row::<u32>("card_title").unwrap().len(),
        store.rows()
    );
    assert_eq!(
        store.per_row::<i16>("card_year").unwrap().len(),
        store.rows()
    );

    let haystack = String::from_utf8_lossy(bytes);
    for path in ["/alpha.jpg", "/gamma.jpg"] {
        assert!(
            !haystack.contains(path),
            "{path} survived in the published bytes"
        );
    }
}

#[test]
fn cards_scores_and_genres_read_as_the_vectors_say() {
    let (fixture, expected) = version_two();
    let store = Store::open(fixture.bytes()).expect("opens");
    let strings = store.strings().expect("string table");
    let titles = store.per_row::<u32>("card_title").unwrap();
    let years = store.per_row::<i16>("card_year").unwrap();
    let intensity = store.per_row::<u16>("score_intensity").unwrap();
    let genres = store.list::<u32>("genres_v", "genres_o").unwrap();

    for row in expected["rows"].as_array().unwrap() {
        let i = row["row"].as_u64().unwrap() as usize;
        let key = row["key"].as_str().unwrap();

        assert_eq!(
            strings.get(titles[i]),
            row["cardTitle"].as_str(),
            "{key} card title"
        );
        assert!(
            row.get("cardPoster").is_none(),
            "{key}: the vectors still describe a poster"
        );
        if let Some(year) = row["cardYear"].as_i64() {
            assert_eq!(years[i] as i64, year, "{key} year");
        }
        // Scores are hundredths of a 0..4 axis: 321 is 3.21.
        if let Some(want) = row.get("scores").and_then(|s| s["intensity"].as_u64()) {
            assert_eq!(intensity[i] as u64, want, "{key} intensity");
        }
        if let Some(want) = row.get("genres").and_then(|g| g.as_array()) {
            let got: Vec<u64> = genres.get(Row(i)).iter().map(|&g| g as u64).collect();
            let want: Vec<u64> = want.iter().map(|g| g.as_u64().unwrap()).collect();
            assert_eq!(
                got, want,
                "{key} genres — one Q-id can map to several TMDB ids"
            );
        }
    }
}

/// The entity table, and the aliases people search reads as well as the name.
#[test]
fn entity_aliases_resolve() {
    let (fixture, expected) = version_two();
    let store = Store::open(fixture.bytes()).expect("opens");
    let strings = store.strings().expect("strings");
    let qids = store.column::<u32>("ent_qid").expect("ent_qid");
    let names = store.column::<u32>("ent_name").expect("ent_name");
    let tmdb = store.column::<u32>("ent_tmdb").expect("ent_tmdb");
    let aliases = store
        .list_of::<u32>("ent_alias_v", "ent_alias_o", qids.len())
        .ok()
        .expect("ent_alias");

    for want in expected["entities"].as_array().unwrap() {
        let qid = want["qid"].as_u64().unwrap() as u32;
        let at = qids.iter().position(|&q| q == qid).expect("entity present");
        assert_eq!(strings.get(names[at]), want["name"].as_str(), "Q{qid} name");
        match want["tmdbPersonId"].as_u64() {
            Some(id) => assert_eq!(u64::from(tmdb[at]), id, "Q{qid} tmdb person id"),
            None => assert_eq!(tmdb[at], NONE_U32, "Q{qid} has no tmdb person id"),
        }
        let got: Vec<&str> = aliases
            .get(Row(at))
            .iter()
            .filter_map(|&id| strings.get(id))
            .collect();
        let want: Vec<&str> = want["aliases"]
            .as_array()
            .unwrap()
            .iter()
            .map(|a| a.as_str().unwrap())
            .collect();
        assert_eq!(got, want, "Q{qid} aliases");
    }
}

#[test]
fn a_facts_only_row_reads_as_absent_not_as_zero() {
    let (fixture, expected) = version_two();
    let store = Store::open(fixture.bytes()).expect("opens");
    let strings = store.strings().unwrap();
    let primary = store.per_row::<u32>("primary_genre").unwrap();
    let makers = store.list::<u32>("makers_v", "makers_o").unwrap();

    // The row that exists in facts and in no label or vector file: an absent value must not read as row
    // 0's.
    let row = expected["rows"]
        .as_array()
        .unwrap()
        .iter()
        .find(|r| r["key"] == "movie:2")
        .expect("the fixture has a facts-only row");
    let i = row["row"].as_u64().unwrap() as usize;

    assert_eq!(primary[i], NONE_U32, "no primary genre");
    assert_eq!(
        strings.get(primary[i]),
        None,
        "and it resolves to nothing, not to a string"
    );
    assert!(makers.get(Row(i)).is_empty(), "no makers");
    assert_eq!(
        strings.get(NONE_U32),
        None,
        "the absent sentinel never resolves"
    );
}

/// `released` is days since 1970-01-01, with its precision in a column of its own.
#[test]
fn released_is_days_since_epoch_with_its_precision() {
    let (fixture, expected) = version_two();
    let store = Store::open(fixture.bytes()).expect("opens");
    let released = store.per_row::<i32>("released").expect("released");
    let precision = store.per_row::<u8>("released_prec").expect("released_prec");

    for row in expected["rows"].as_array().unwrap() {
        let i = row["row"].as_u64().unwrap() as usize;
        let key = row["key"].as_str().unwrap();
        match row["released"].as_i64() {
            Some(want) => {
                assert_eq!(released[i] as i64, want, "{key} released");
                if let Some(prec) = row["releasedPrecision"].as_u64() {
                    assert_eq!(precision[i] as u64, prec, "{key} precision");
                }
            }
            None if row.get("released").is_some_and(|v| v.is_null()) => {
                assert_eq!(released[i], i32::MIN, "{key} has no date and must say so");
            }
            None => {}
        }
    }
}

/// The 12 facet axes, in order, and a declined one reading as absent.
#[test]
fn facets_keep_their_axis_order_and_declines_are_absent() {
    let (fixture, expected) = version_two();
    let store = Store::open(fixture.bytes()).expect("opens");
    let strings = store.strings().expect("strings");
    let values = store.column::<u32>("facet_v").expect("facet_v");
    let confs = store.column::<u8>("facet_c").expect("facet_c");
    let axes = FACET_AXES.len();

    for row in expected["rows"].as_array().unwrap() {
        let i = row["row"].as_u64().unwrap() as usize;
        let key = row["key"].as_str().unwrap();

        if let Some(want) = row.get("facets").and_then(|f| f.as_object()) {
            for (name, pair) in want {
                let axis = FACET_AXES
                    .iter()
                    .position(|a| a == name)
                    .unwrap_or_else(|| panic!("{name} is not a facet axis"));
                let at = i * axes + axis;
                let pair = pair.as_array().expect("[value, confidence]");
                assert_eq!(
                    strings.get(values[at]),
                    pair[0].as_str(),
                    "{key} {name} — a wrong axis order shows up here and nowhere else"
                );
                assert_eq!(
                    confs[at] as u64,
                    pair[1].as_u64().unwrap(),
                    "{key} {name} confidence"
                );
            }
        }
        for name in row
            .get("facetsAbsent")
            .and_then(|a| a.as_array())
            .unwrap_or(&vec![])
        {
            let name = name.as_str().unwrap();
            let axis = FACET_AXES.iter().position(|a| a == &name).unwrap();
            assert_eq!(
                values[i * axes + axis],
                NONE_U32,
                "{key} {name} was declined and must be absent, not a value"
            );
        }
    }
}

/// The vectors, in the store's sorted-key order. The fixture builds each row from a known fill, so a shift
/// of even one row is caught.
#[test]
fn vectors_are_reordered_into_key_order() {
    let (fixture, expected) = version_two();
    let store = Store::open(fixture.bytes()).expect("opens");
    let plot = store.column::<i8>("vec_plot").expect("vec_plot");
    let has_premise = store
        .per_row::<u8>("vec_premise_has")
        .expect("vec_premise_has");
    let premise = store.column::<i8>("vec_premise").expect("vec_premise");
    let dims = plot.len() / store.rows();

    for row in expected["rows"].as_array().unwrap() {
        let i = row["row"].as_u64().unwrap() as usize;
        let key = row["key"].as_str().unwrap();
        let span = &plot[i * dims..(i + 1) * dims];

        if row["hasPlotVector"].as_bool() == Some(true) {
            assert!(
                span.iter().any(|&b| b != 0),
                "{key} should carry a plot vector"
            );
        } else {
            assert!(
                span.iter().all(|&b| b == 0),
                "{key} has none, so its row must be zero-filled"
            );
        }

        let want = row["hasPremiseVector"].as_bool() == Some(true);
        assert_eq!(has_premise[i] == 1, want, "{key} premise flag");
        let span = &premise[i * dims..(i + 1) * dims];
        assert_eq!(
            span.iter().any(|&b| b != 0),
            want,
            "{key} premise vector must agree with its own flag"
        );
    }
}

/// A column read at the wrong element width must be refused, not silently reinterpreted: half of a `u32` is
/// a perfectly aligned, whole `u16`.
#[test]
fn a_column_read_at_the_wrong_width_is_refused() {
    let (fixture, _) = version_two();
    let store = Store::open(fixture.bytes()).expect("opens");

    assert!(
        store.column::<u32>("card_title").is_ok(),
        "the declared width reads"
    );
    assert!(
        matches!(
            store.column::<u16>("card_title"),
            Err(StoreError::WidthMismatch { .. })
        ),
        "a u32 column read as u16 must be an error, not twice as many wrong numbers"
    );
    assert!(
        matches!(
            store.column::<u8>("keys"),
            Err(StoreError::WidthMismatch { .. })
        ),
        "and the same for the key column, which addresses everything else"
    );
}

/// A row number nothing can describe yields an empty span rather than panicking.
#[test]
fn an_impossible_row_is_empty_not_a_panic() {
    let (fixture, _) = version_two();
    let store = Store::open(fixture.bytes()).expect("opens");
    let makers = store.list::<u32>("makers_v", "makers_o").ok().expect("makers");

    assert!(makers.get(Row(usize::MAX)).is_empty());
    assert!(makers.get(Row(store.rows() + 10)).is_empty());
}

// ---------------------------------------------------------------------------------------------------
// Refusals.

fn refusal(bytes: &[u8]) -> StoreError {
    Store::open(bytes).err().unwrap()
}

#[test]
fn every_refusal_says_why() {
    assert_eq!(
        refusal(b"short").to_string(),
        "store is 5 bytes, needs at least 64"
    );
    assert_eq!(
        refusal(&[0u8; 64]).to_string(),
        "not a den store (bad magic)"
    );
    assert_eq!(
        StoreError::Endianness { found: 0x0403_0201 }.to_string(),
        "endianness marker 0x4030201 — foreign writer"
    );
    assert_eq!(
        StoreError::Corrupt {
            found: 0xab,
            computed: u64::MAX
        }
        .to_string(),
        "content hash 0x00000000000000ab but the bytes hash to 0xffffffffffffffff"
    );
    assert_eq!(
        StoreError::SectionTable.to_string(),
        "section table does not fit in the file"
    );
    assert_eq!(
        StoreError::SectionBounds {
            name: *b"keys\0\0\0\0\0\0\0\0\0\0\0\0"
        }
        .to_string(),
        "section keys extends past the end of the file"
    );
    assert_eq!(
        StoreError::SectionBounds { name: [0xff; 16] }.to_string(),
        "section ? extends past the end of the file"
    );
    assert_eq!(
        StoreError::MissingSection("votes").to_string(),
        "store has no votes section"
    );
    assert_eq!(
        StoreError::BadSection { name: "keys" }.to_string(),
        "section keys is misaligned or a partial element"
    );
    assert_eq!(
        StoreError::WidthMismatch {
            name: "card_title",
            declared: 4,
            requested: 2
        }
        .to_string(),
        "section card_title holds 4-byte elements, read as 2-byte"
    );
    assert_eq!(
        StoreError::RowMismatch {
            name: "keys",
            rows: 3,
            found: 2
        }
        .to_string(),
        "section keys holds 2 elements for 3 rows"
    );
}

#[test]
fn a_foreign_endianness_marker_is_refused() {
    let mut bytes = file(2, 0, "", &[]);
    bytes[12..16].copy_from_slice(&0x0403_0201u32.to_le_bytes());
    assert_eq!(
        refusal(&bytes),
        StoreError::Endianness { found: 0x0403_0201 }
    );
}

#[test]
fn the_hash_covers_everything_past_the_header() {
    let mut bytes = file(2, 0, "", &[("a", 1, vec![7; 8])]);
    let declared = u64::from_le_bytes(bytes[16..24].try_into().unwrap());
    let last = bytes.len() - 1;
    bytes[last] ^= 0x80;
    assert_eq!(
        refusal(&bytes),
        StoreError::Corrupt {
            found: declared,
            computed: blake2b64(&bytes[64..])
        }
    );
}

#[test]
fn a_table_past_the_end_is_refused() {
    let mut bytes = file(2, 0, "", &[("a", 1, vec![7; 8])]);
    bytes[24..28].copy_from_slice(&u32::MAX.to_le_bytes());
    assert_eq!(refusal(&bytes), StoreError::SectionTable);
}

#[test]
fn a_section_past_the_end_is_refused_by_name() {
    let mut bytes = file(2, 0, "", &[("a", 1, vec![7; 8]), ("reach", 1, vec![7; 8])]);
    let name: [u8; 16] = *b"reach\0\0\0\0\0\0\0\0\0\0\0";
    // One byte too long.
    let length = u32::from_le_bytes(bytes[64 + 32 + 24..64 + 32 + 28].try_into().unwrap());
    bytes[64 + 32 + 24..64 + 32 + 28].copy_from_slice(&(length + 1).to_le_bytes());
    seal(&mut bytes);
    assert_eq!(
        refusal(aligned(&bytes).bytes()),
        StoreError::SectionBounds { name }
    );
    // An end that no number can hold.
    bytes[64 + 32 + 16..64 + 32 + 24].copy_from_slice(&u64::MAX.to_le_bytes());
    seal(&mut bytes);
    assert_eq!(
        refusal(aligned(&bytes).bytes()),
        StoreError::SectionBounds { name }
    );
}

#[test]
fn a_table_where_numbers_may_not_lie_is_refused() {
    let bytes = file(2, 0, "", &[("a", 1, vec![7; 8])]);
    let mut shifted = vec![0u8; bytes.len() + 8];
    shifted[1..1 + bytes.len()].copy_from_slice(&bytes);
    let fixture = aligned(&shifted);
    assert_eq!(
        refusal(&fixture.bytes()[1..1 + bytes.len()]),
        StoreError::SectionTable
    );
    assert!(Store::open(aligned(&bytes).bytes()).is_ok());
}

#[test]
fn a_partial_or_misplaced_element_is_refused() {
    let mut bytes = file(
        2,
        0,
        "",
        &[("odd", 4, vec![1; 6]), ("shifted", 4, vec![1; 16])],
    );
    let fixture = aligned(&bytes);
    let store = Store::open(fixture.bytes()).unwrap();
    assert_eq!(
        store.column::<u32>("odd").err(),
        Some(StoreError::BadSection { name: "odd" })
    );
    assert!(store.column::<u32>("shifted").is_ok());

    // Two bytes further, the same section no longer lies where its elements may.
    let at = 64 + 32 + 16;
    let offset = u64::from_le_bytes(bytes[at..at + 8].try_into().unwrap());
    bytes[at..at + 8].copy_from_slice(&(offset + 2).to_le_bytes());
    bytes[at + 8..at + 12].copy_from_slice(&8u32.to_le_bytes());
    seal(&mut bytes);
    let fixture = aligned(&bytes);
    let store = Store::open(fixture.bytes()).unwrap();
    assert_eq!(
        store.column::<u32>("shifted").err(),
        Some(StoreError::BadSection { name: "shifted" })
    );
}

#[test]
fn a_column_must_have_a_row_for_every_title() {
    let fixture = store(
        2,
        3,
        &[
            ("two", 4, u32s(&[1, 2])),
            ("two_o", 4, u32s(&[0, 1, 2])),
            ("two_v", 4, u32s(&[1, 2])),
        ],
    );
    let store = Store::open(fixture.bytes()).unwrap();
    assert_eq!(
        store.per_row::<u32>("two").err(),
        Some(StoreError::RowMismatch {
            name: "two",
            rows: 3,
            found: 2
        })
    );
    assert_eq!(
        store.list::<u32>("two_v", "two_o").err(),
        Some(StoreError::RowMismatch {
            name: "two_o",
            rows: 4,
            found: 3
        })
    );
    assert_eq!(
        store.list_of::<u32>("two_v", "two_o", 2).unwrap().get(Row(1)),
        &[2]
    );
    assert!(matches!(
        store.list_of::<u32>("two_v", "two_o", usize::MAX),
        Err(StoreError::RowMismatch { .. })
    ));
    assert_eq!(
        store.list_of::<u32>("none", "two_o", 2).err(),
        Some(StoreError::MissingSection("none"))
    );
}

#[test]
fn a_column_is_counted_after_it_is_read() {
    assert_eq!(counted_column(&[7u16, 8], "c", 2), Ok(&[7u16, 8][..]));
    assert_eq!(
        counted_column(&[7u16, 8], "c", 3),
        Err(StoreError::RowMismatch {
            name: "c",
            rows: 3,
            found: 2
        })
    );
}

#[test]
fn a_list_refuses_its_offsets_first() {
    let bad = |name| Err(StoreError::BadSection { name });
    let offsets = [0u32, 1, 3];
    let values = [5u16, 6, 7];
    let list = list_over(Ok(&values[..]), Ok(&offsets), "o", 2).ok().unwrap();
    assert_eq!(list.get(Row(0)), &[5]);
    assert_eq!(list.get(Row(1)), &[6, 7]);
    assert_eq!(
        list_over::<u16>(bad("v"), Err(StoreError::BadSection { name: "o" }), "o", 2).err(),
        Some(StoreError::BadSection { name: "o" })
    );
    assert_eq!(
        list_over::<u16>(bad("v"), Ok(&offsets), "o", 3).err(),
        Some(StoreError::RowMismatch {
            name: "o",
            rows: 4,
            found: 3
        }),
        "even if the values are bad"
    );
    assert_eq!(
        list_over::<u16>(bad("v"), Ok(&offsets), "o", 2).err(),
        Some(StoreError::BadSection { name: "v" })
    );
    assert_eq!(
        list_over(Ok(&values[..]), Ok(&offsets), "o", usize::MAX).err(),
        Some(StoreError::RowMismatch {
            name: "o",
            rows: usize::MAX,
            found: 3
        })
    );
}

#[test]
fn the_rows_of_a_list_share_out_its_values() {
    let offsets = [0u32, 2, 2, 3];
    let values = [5u32, 6, 7];
    let list = list_over(Ok(&values[..]), Ok(&offsets), "o", 3).ok().unwrap();
    let all: Vec<u32> = (0..3).flat_map(|i| list.get(Row(i)).to_vec()).collect();
    assert_eq!(all, values);
}

#[test]
fn studios_refuse_their_sections_in_turn() {
    let missing = || Err(StoreError::MissingSection("studio_qid"));
    let bad = |name| Err(StoreError::BadSection { name });
    let entities = || list_over(Ok(&[9u32][..]), Ok(&[0, 1]), "studio_ent_o", 1);
    let refused = |name| Err(StoreError::BadSection { name });
    assert!(studios_over(missing(), bad("n"), refused("e"))
        .ok()
        .unwrap()
        .is_empty());
    assert_eq!(
        studios_over(bad("q"), bad("n"), refused("e")).err(),
        Some(StoreError::BadSection { name: "q" })
    );
    assert_eq!(
        studios_over(Ok(&[1]), bad("n"), refused("e")).err(),
        Some(StoreError::BadSection { name: "n" })
    );
    assert_eq!(
        studios_over(Ok(&[1]), Ok(&[2, 3]), refused("e")).err(),
        Some(StoreError::RowMismatch {
            name: "studio_name",
            rows: 1,
            found: 2
        })
    );
    assert_eq!(
        studios_over(Ok(&[1]), Ok(&[2]), refused("e")).err(),
        Some(StoreError::BadSection { name: "e" })
    );
    let studios = studios_over(Ok(&[1]), Ok(&[2]), entities()).ok().unwrap();
    assert_eq!(studios.get(0).unwrap().entities, &[9]);
}

// ---------------------------------------------------------------------------------------------------
// Elements.

#[test]
fn every_kind_of_element_reads_as_it_was_written() {
    let fixture = store(
        2,
        0,
        &[
            ("u8", 1, vec![0, 1, 0xff]),
            ("i8", 1, i8s(&[0, -1, i8::MIN])),
            ("u16", 2, u16s(&[0x0102, u16::MAX])),
            ("i16", 2, i16s(&[0x0102, i16::MIN, -2])),
            ("u32", 4, u32s(&[0x0102_0304, u32::MAX])),
            ("i32", 4, i32s(&[0x0102_0304, i32::MIN, -2])),
            ("u64", 8, u64s(&[0x0102_0304_0506_0708, u64::MAX])),
            ("i64", 8, i64s(&[0x0102_0304_0506_0708, i64::MIN, -2])),
        ],
    );
    let store = Store::open(fixture.bytes()).unwrap();
    assert_eq!(store.column::<u8>("u8").unwrap(), &[0, 1, 0xff]);
    assert_eq!(store.column::<i8>("i8").unwrap(), &[0, -1, i8::MIN]);
    assert_eq!(store.column::<u16>("u16").unwrap(), &[0x0102, u16::MAX]);
    assert_eq!(store.column::<i16>("i16").unwrap(), &[0x0102, i16::MIN, -2]);
    assert_eq!(
        store.column::<u32>("u32").unwrap(),
        &[0x0102_0304, u32::MAX]
    );
    assert_eq!(
        store.column::<i32>("i32").unwrap(),
        &[0x0102_0304, i32::MIN, -2]
    );
    assert_eq!(
        store.column::<u64>("u64").unwrap(),
        &[0x0102_0304_0506_0708, u64::MAX]
    );
    assert_eq!(
        store.column::<i64>("i64").unwrap(),
        &[0x0102_0304_0506_0708, i64::MIN, -2]
    );
}

#[test]
fn a_column_that_a_machine_reads_backwards_is_refused() {
    let bytes = [1, 1, 1, 2];
    // What reads the same from either end settles nothing; the next element does.
    assert_eq!(
        in_store_order::<u16>(Some(&[0x0101, 0x0201]), &bytes),
        Some(&[0x0101u16, 0x0201][..])
    );
    assert_eq!(
        in_store_order::<u16>(Some(&[0x0101, 0x0102]), &bytes),
        None
    );
    assert_eq!(
        in_store_order::<i32>(Some(&[-2]), &[0xfe, 0xff, 0xff, 0xff]),
        Some(&[-2][..])
    );
    assert_eq!(
        in_store_order::<i32>(Some(&[-0x0100_0001]), &[0xfe, 0xff, 0xff, 0xff]),
        None
    );
    assert_eq!(
        in_store_order::<u64>(Some(&[u64::MAX]), &[0xff; 8]),
        Some(&[u64::MAX][..])
    );
    assert_eq!(in_store_order::<u32>(None, &[1, 2, 3, 4]), None);
}

#[test]
fn sections_are_found_by_name() {
    let fixture = store(
        2,
        0,
        &[
            ("a", 1, vec![1, 2]),
            ("a", 1, vec![3]),
            ("exactly_sixteen_", 1, vec![4]),
        ],
    );
    let store = Store::open(fixture.bytes()).unwrap();
    assert_eq!(store.section("a").unwrap(), &[1, 2], "the first of the name");
    assert_eq!(store.section("exactly_sixteen_").unwrap(), &[4]);
    assert_eq!(store.section_count(), 3);
    assert_eq!(store.size(), fixture.bytes().len());
    assert_eq!(
        store.section("A").err(),
        Some(StoreError::MissingSection("A"))
    );
}

#[test]
fn a_dataset_version_ends_at_its_first_zero() {
    let mut bytes = file(2, 0, "abc", &[]);
    bytes[36] = b'x';
    assert_eq!(
        Store::open(aligned(&bytes).bytes())
            .unwrap()
            .dataset_version(),
        "abc"
    );
    bytes[32..48].copy_from_slice(&[b'v'; 16]);
    assert_eq!(
        Store::open(aligned(&bytes).bytes())
            .unwrap()
            .dataset_version(),
        "vvvvvvvvvvvvvvvv"
    );
    bytes[32] = 0xff;
    assert_eq!(
        Store::open(aligned(&bytes).bytes())
            .unwrap()
            .dataset_version(),
        ""
    );
}

#[test]
fn strings_resolve_or_say_that_they_do_not() {
    let fixture = store(
        2,
        0,
        &[
            ("strings", 1, "aé€😀\u{0}".bytes().chain([0xff]).collect()),
            ("str_off", 4, u32s(&[0, 1, 3, 6, 10, 11, 12, 4, 99])),
        ],
    );
    let store = Store::open(fixture.bytes()).unwrap();
    let strings = store.strings().ok().unwrap();
    assert_eq!(strings.len(), 8);
    assert!(!strings.is_empty());
    assert_eq!(strings.get(0), Some("a"));
    assert_eq!(strings.get(1), Some("é"));
    assert_eq!(strings.get(2), Some("€"));
    assert_eq!(strings.get(3), Some("😀"));
    assert_eq!(strings.get(4), Some("\u{0}"));
    assert_eq!(strings.get(5), None, "no UTF-8");
    assert_eq!(strings.get(6), None, "ends before it starts");
    assert_eq!(strings.get(7), None, "ends past the blob");
    assert_eq!(strings.get(8), None, "out of range");
    assert_eq!(strings.get(NONE_U32), None);
}

#[test]
fn an_empty_string_table_is_empty() {
    let fixture = store(2, 0, &[("strings", 1, vec![]), ("str_off", 4, vec![])]);
    let store = Store::open(fixture.bytes()).unwrap();
    let strings = store.strings().ok().unwrap();
    assert_eq!(strings.len(), 0);
    assert!(strings.is_empty());
    assert_eq!(strings.get(0), None);
}

#[test]
fn a_title_that_is_not_there_is_not_found() {
    let fixture = store(
        2,
        4,
        &[("keys", 8, u64s(&[3, 7, 9, (1 << 32) | 3]))],
    );
    let store = Store::open(fixture.bytes()).unwrap();
    assert_eq!(store.row_of(0, 3).unwrap(), Some(Row(0)));
    assert_eq!(store.row_of(0, 9).unwrap(), Some(Row(2)));
    assert_eq!(store.row_of(1, 3).unwrap(), Some(Row(3)));
    for (media, id) in [(0, 0), (0, 8), (0, u32::MAX), (1, 7), (2, 3)] {
        assert_eq!(store.row_of(media, id).unwrap(), None);
    }
}

#[test]
fn a_store_without_keys_says_so() {
    let fixture = store(2, 1, &[]);
    let store = Store::open(fixture.bytes()).unwrap();
    assert_eq!(
        store.row_of(0, 1).err(),
        Some(StoreError::MissingSection("keys"))
    );
}

#[test]
fn a_span_that_the_offsets_do_not_describe_is_empty() {
    let fixture = store(
        2,
        3,
        &[("v", 1, vec![1, 2, 3]), ("o", 4, u32s(&[0, 2, 1, 9]))],
    );
    let store = Store::open(fixture.bytes()).unwrap();
    let list = store.list::<u8>("v", "o").ok().unwrap();
    assert_eq!(list.get(Row(0)), &[1, 2]);
    assert!(list.get(Row(1)).is_empty(), "ends before it starts");
    assert!(list.get(Row(2)).is_empty(), "ends past the values");
    assert!(list.get(Row(3)).is_empty());
}

#[test]
fn iconic_studios_are_optional_but_not_malformed() {
    let without = store(2, 0, &[]);
    let store_without = Store::open(without.bytes()).unwrap();
    let none = store_without.iconic_studios().ok().unwrap();
    assert!(none.is_empty());
    assert_eq!(none.len(), 0);
    assert!(none.get(0).is_none());
    assert!(none.iter().is_empty());

    let with = store(
        2,
        0,
        &[
            ("studio_qid", 4, u32s(&[10, 20])),
            ("studio_name", 4, u32s(&[1, 2])),
            ("studio_ent_v", 4, u32s(&[100, 101, 200])),
            ("studio_ent_o", 4, u32s(&[0, 2, 3])),
        ],
    );
    let store_with = Store::open(with.bytes()).unwrap();
    let studios = store_with.iconic_studios().ok().unwrap();
    assert_eq!(studios.len(), 2);
    assert!(!studios.is_empty());
    let first = studios.get(0).unwrap();
    assert_eq!((first.qid, first.name), (10, 1));
    assert_eq!(first.entities, &[100, 101]);
    let all = studios.iter();
    assert_eq!(all.len(), 2);
    assert_eq!((all[1].qid, all[1].name), (20, 2));
    assert_eq!(all[1].entities, &[200]);
    assert!(studios.get(2).is_none());

    let short = store(
        2,
        0,
        &[
            ("studio_qid", 4, u32s(&[10, 20])),
            ("studio_name", 4, u32s(&[1])),
        ],
    );
    assert_eq!(
        Store::open(short.bytes()).unwrap().iconic_studios().err(),
        Some(StoreError::RowMismatch {
            name: "studio_name",
            rows: 2,
            found: 1
        })
    );

    let wide = store(2, 0, &[("studio_qid", 8, u64s(&[10]))]);
    assert_eq!(
        Store::open(wide.bytes()).unwrap().iconic_studios().err(),
        Some(StoreError::WidthMismatch {
            name: "studio_qid",
            declared: 8,
            requested: 4
        })
    );
}

// ---------------------------------------------------------------------------------------------------
// The table.

#[test]
fn a_table_gives_its_store_back() {
    let (fixture, _) = version_two();
    let bytes = fixture.bytes();
    let table = StoreTable::open(bytes).ok().unwrap();
    assert_eq!(table.rows(), 3);
    assert_eq!(table.dataset_version(), "2026.07");
    assert!(table.describes(bytes));
    assert!(!table.describes(&bytes[1..]));
    let opened = Store::open(bytes).unwrap();
    let viewed = table.view(bytes);
    assert_eq!(viewed.rows(), opened.rows());
    assert_eq!(viewed.format_version(), opened.format_version());
    assert_eq!(viewed.dataset_version(), opened.dataset_version());
    for name in ["keys", "strings", "vec_plot", "ent_alias_o"] {
        assert_eq!(viewed.section(name), opened.section(name));
    }
    assert_eq!(viewed.row_of(1, 10).unwrap(), Some(Row(2)));
}

#[test]
fn a_table_is_what_its_store_says() {
    let (fixture, _) = version_two();
    let store = Store::open(fixture.bytes()).unwrap();
    let table = table_from(&store);
    assert_eq!(table.rows(), store.rows());
    assert_eq!(table.dataset_version(), store.dataset_version());
    assert!(table.describes(fixture.bytes()));
    let viewed = table.view(fixture.bytes());
    assert_eq!(viewed.column::<u32>("card_title"), store.column::<u32>("card_title"));
    assert_eq!(viewed.column::<u16>("card_title"), store.column::<u16>("card_title"));
    assert_eq!(viewed.column::<u64>("votes"), store.column::<u64>("votes"));
}

#[test]
fn a_table_is_never_built_from_unchecked_bytes() {
    let (fixture, _) = version_two();
    let mut corrupt = fixture.bytes().to_vec();
    corrupt[70] ^= 1;
    assert!(matches!(
        StoreTable::open(aligned(&corrupt).bytes()),
        Err(StoreError::Corrupt { .. })
    ));
}
