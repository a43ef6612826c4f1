use lcov_rs::cover::resolve;
use lcov_rs::model::{
    ArcNotes, BlockNotes, DataFunction, DataModel, FunctionNotes, LineRecord, NotesModel,
};
use lcov_rs::notes::decode_notes;
use lcov_rs::report::render;

fn push_u32(out: &mut Vec<u8>, v: u32) {
    out.extend_from_slice(&v.to_le_bytes());
}

fn push_padded(out: &mut Vec<u8>, s: &str) {
    let words = (s.len() + 4) / 4;
    push_u32(out, words as u32);
    out.extend_from_slice(s.as_bytes());
    for _ in 0..(4 * words - s.len()) {
        out.push(0);
    }
}

fn simple_function(path: &str, name: &str, start: u32, lines: &[(u32, &str)]) -> FunctionNotes {
    FunctionNotes {
        identifier: 1,
        line_number_checksum: 1,
        config_checksum: 2,
        src_path: path.to_string(),
        name: name.to_string(),
        line_number: start,
        blocks: vec![BlockNotes { flags: 0 }],
        arcs: vec![],
        lines: lines
            .iter()
            .map(|&(l, p)| LineRecord { src_path: p.to_string(), block: 0, line_number: l })
            .collect(),
    }
}

#[test]
fn tracefile_layout_for_one_file() {
    // one entry block with no arcs: the function and all its lines
    // resolve to zero executions
    let f = simple_function("a.c", "f", 3, &[(5, "a.c"), (4, "a.c")]);
    let notes = NotesModel {
        version: "A93*".to_string(),
        functions: vec![f],
        source_paths: vec!["a.c".to_string()],
    };
    let data = DataModel {
        version: "A93*".to_string(),
        functions: vec![DataFunction {
            identifier: 1,
            line_number_checksum: 1,
            config_checksum: 2,
            counts: vec![],
        }],
    };
    let cov = resolve(&notes, &data).unwrap();
    let text = render(&cov);
    assert_eq!(
        text,
        "SF:a.c\nFN:3,f\nFNDA:0,f\nDA:4,0\nDA:5,0\nLF:2\nLH:0\nend_of_record\n"
    );
}

#[test]
fn tracefile_paths_sorted_and_lines_sorted() {
    // two functions declared under z.c and a.c, with lines recorded out
    // of order: paths come out ascending, lines ascending within a path
    let mut bytes = Vec::new();
    push_u32(&mut bytes, 0x67636e6f);
    bytes.extend_from_slice(b"A93*");
    push_u32(&mut bytes, 0);
    for (id, path, name, line_numbers) in
        [(1u32, "z.c", "zf", [30u32, 10]), (2u32, "a.c", "af", [7u32, 2])]
    {
        let mut payload = Vec::new();
        push_u32(&mut payload, id);
        push_u32(&mut payload, 1);
        push_u32(&mut payload, 2);
        push_padded(&mut payload, name);
        push_padded(&mut payload, path);
        push_u32(&mut payload, 1);
        push_u32(&mut bytes, 0x01000000);
        push_u32(&mut bytes, (payload.len() / 4) as u32);
        bytes.extend_from_slice(&payload);
        // one block
        push_u32(&mut bytes, 0x01410000);
        push_u32(&mut bytes, 1);
        push_u32(&mut bytes, 0);
        // its lines, deliberately descending
        let mut lp = Vec::new();
        push_u32(&mut lp, 0);
        push_u32(&mut lp, 0);
        push_padded(&mut lp, path);
        for l in line_numbers {
            push_u32(&mut lp, l);
        }
        push_u32(&mut lp, 0);
        push_u32(&mut lp, 0);
        push_u32(&mut bytes, 0x01450000);
        push_u32(&mut bytes, (lp.len() / 4) as u32);
        bytes.extend_from_slice(&lp);
    }
    push_u32(&mut bytes, 0);
    push_u32(&mut bytes, 0);
    let notes = decode_notes(&bytes).unwrap();
    assert_eq!(notes.source_paths, vec!["a.c".to_string(), "z.c".to_string()]);
    let data = DataModel {
        version: "A93*".to_string(),
        functions: vec![
            DataFunction { identifier: 1, line_number_checksum: 1, config_checksum: 2, counts: vec![] },
            DataFunction { identifier: 2, line_number_checksum: 1, config_checksum: 2, counts: vec![] },
        ],
    };
    let cov = resolve(&notes, &data).unwrap();
    let text = render(&cov);
    let sf_a = text.find("SF:a.c\n").unwrap();
    let sf_z = text.find("SF:z.c\n").unwrap();
    assert!(sf_a < sf_z);
    let da_2 = text.find("DA:2,").unwrap();
    let da_7 = text.find("DA:7,").unwrap();
    let da_10 = text.find("DA:10,").unwrap();
    let da_30 = text.find("DA:30,").unwrap();
    assert!(da_2 < da_7 && da_7 < da_10 && da_10 < da_30);
}

#[test]
fn header_included_by_a_function_lands_under_its_own_path() {
    // a function in b.c whose block also claims a line of a header a.h:
    // the header's hits appear under the header's path
    let f = FunctionNotes {
        identifier: 1,
        line_number_checksum: 1,
        config_checksum: 2,
        src_path: "b.c".to_string(),
        name: "f".to_string(),
        line_number: 1,
        blocks: vec![BlockNotes { flags: 0 }, BlockNotes { flags: 0 }],
        arcs: vec![
            ArcNotes { source_block: 0, destination_block: 1, flags: 0 },
            ArcNotes { source_block: 1, destination_block: 0, flags: 1 },
        ],
        lines: vec![
            LineRecord { src_path: "b.c".to_string(), block: 1, line_number: 4 },
            LineRecord { src_path: "a.h".to_string(), block: 1, line_number: 20 },
        ],
    };
    let notes = NotesModel {
        version: "A93*".to_string(),
        functions: vec![f],
        source_paths: vec!["a.h".to_string(), "b.c".to_string()],
    };
    let data = DataModel {
        version: "A93*".to_string(),
        functions: vec![DataFunction {
            identifier: 1,
            line_number_checksum: 1,
            config_checksum: 2,
            counts: vec![6],
        }],
    };
    let cov = resolve(&notes, &data).unwrap();
    assert_eq!(cov.files.len(), 2);
    assert_eq!(cov.files[0].src_path, "a.h");
    assert_eq!(cov.files[0].lines.len(), 1);
    assert_eq!(cov.files[0].lines[0].line_number, 20);
    assert_eq!(cov.files[0].lines[0].count, 6);
    assert_eq!(cov.files[1].src_path, "b.c");
    assert_eq!(cov.files[1].functions[0].count, 6);
    let text = render(&cov);
    assert!(text.contains("DA:20,6"));
    assert!(text.contains("DA:4,6"));
    assert!(text.contains("FNDA:6,f"));
    assert!(text.contains("LF:1\nLH:1\nend_of_record\n"));
}
