use lcov_rs::cover::resolve;
use lcov_rs::model::{
    ArcNotes, BlockNotes, DataFunction, DataModel, FunctionNotes, LineRecord, NotesModel,
};
use lcov_rs::report::render;
use lcov_rs::text::{read_utf8, str_lt, u32_to_dec, u64_to_dec};

#[test]
fn decimal_rendering() {
    assert_eq!(u64_to_dec(0), "0");
    assert_eq!(u64_to_dec(7), "7");
    assert_eq!(u64_to_dec(10), "10");
    assert_eq!(u64_to_dec(305441), "305441");
    assert_eq!(u64_to_dec(u64::MAX), "18446744073709551615");
    assert_eq!(u32_to_dec(4294967295), "4294967295");
}

#[test]
fn path_order_is_byte_lexicographic() {
    assert!(str_lt("a", "b"));
    assert!(!str_lt("b", "a"));
    assert!(!str_lt("a", "a"));
    assert!(str_lt("a", "ab"));
    assert!(!str_lt("ab", "a"));
    assert!(str_lt("ab", "b"));
    assert!(str_lt("", "a"));
    assert!(str_lt("src/app.c", "src/app.h"));
}

#[test]
fn string_decode_multibyte_utf8() {
    // a two-byte encoded character with NUL padding
    let field = [0xc3u8, 0xa9, 0, 0];
    assert_eq!(read_utf8(&field).unwrap(), "\u{e9}");
}

#[test]
fn aggregated_counts_saturate() {
    // two instrumented arcs both carry the largest possible count, and
    // both their blocks claim line 10: the entry block's count and the
    // line's count clamp at the largest representable value
    let f = FunctionNotes {
        identifier: 1,
        line_number_checksum: 1,
        config_checksum: 2,
        src_path: "a.c".to_string(),
        name: "f".to_string(),
        line_number: 1,
        blocks: vec![BlockNotes { flags: 0 }; 3],
        arcs: vec![
            ArcNotes { source_block: 0, destination_block: 1, flags: 0 },
            ArcNotes { source_block: 0, destination_block: 2, flags: 0 },
            ArcNotes { source_block: 1, destination_block: 0, flags: 1 },
            ArcNotes { source_block: 2, destination_block: 0, flags: 1 },
        ],
        lines: vec![
            LineRecord { src_path: "a.c".to_string(), block: 1, line_number: 10 },
            LineRecord { src_path: "a.c".to_string(), block: 2, line_number: 10 },
        ],
    };
    let notes = NotesModel {
        version: "A93*".to_string(),
        functions: vec![f],
        source_paths: vec!["a.c".to_string()],
    };
    let data = DataModel {
        version: "A93*".to_string(),
        functions: vec![DataFunction {
            identifier: 1,
            line_number_checksum: 1,
            config_checksum: 2,
            counts: vec![u64::MAX, u64::MAX],
        }],
    };
    let cov = resolve(&notes, &data).unwrap();
    assert_eq!(cov.files[0].functions[0].count, u64::MAX);
    assert_eq!(cov.files[0].lines.len(), 1);
    assert_eq!(cov.files[0].lines[0].count, u64::MAX);
    let text = render(&cov);
    assert!(text.contains("DA:10,18446744073709551615\n"));
}
