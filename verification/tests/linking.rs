use linker::decode::{decode_object, Header};
use linker::errors::{DecodeError, LinkError, RelocationPart, SymbolPart};
use linker::link::{link_buffers, link_objects, merge_objects};

/// Builds one object-file buffer: a 20-byte header, then the symbol table,
/// then the relocation table, then the code.
fn build_object(symbols: &[(&str, u32)], relocations: &[(&str, &[u32])], code: &[u8]) -> Vec<u8> {
    let mut sym_bytes: Vec<u8> = Vec::new();
    for (name, addr) in symbols {
        sym_bytes.push(name.len() as u8);
        sym_bytes.extend_from_slice(name.as_bytes());
        sym_bytes.extend_from_slice(&addr.to_le_bytes());
    }
    let mut rel_bytes: Vec<u8> = Vec::new();
    for (name, sites) in relocations {
        rel_bytes.push(name.len() as u8);
        rel_bytes.extend_from_slice(name.as_bytes());
        rel_bytes.extend_from_slice(&(sites.len() as u32).to_le_bytes());
        for s in *sites {
            rel_bytes.extend_from_slice(&s.to_le_bytes());
        }
    }
    let sym_off = 20u32;
    let rel_off = sym_off + sym_bytes.len() as u32;
    let code_off = rel_off + rel_bytes.len() as u32;
    let mut buf: Vec<u8> = Vec::new();
    buf.extend_from_slice(&sym_off.to_le_bytes());
    buf.extend_from_slice(&(symbols.len() as u32).to_le_bytes());
    buf.extend_from_slice(&rel_off.to_le_bytes());
    buf.extend_from_slice(&(relocations.len() as u32).to_le_bytes());
    buf.extend_from_slice(&code_off.to_le_bytes());
    buf.extend_from_slice(&sym_bytes);
    buf.extend_from_slice(&rel_bytes);
    buf.extend_from_slice(code);
    buf
}

fn decode_all(buffers: &[Vec<u8>]) -> Vec<linker::tables::ObjectFile> {
    buffers
        .iter()
        .map(|b| decode_object(b.as_slice()).expect("object should decode"))
        .collect()
}

#[test]
fn header_reads_five_fields() {
    let buf = build_object(&[("a", 7)], &[("b", &[1, 2])], &[0xAA]);
    let h = Header::from_slice(buf.as_slice()).expect("header should decode");
    assert_eq!(h.symbol_offset, 20);
    assert_eq!(h.symbol_count, 1);
    assert_eq!(h.relocation_offset, 26);
    assert_eq!(h.relocation_count, 1);
    assert_eq!(h.code_offset, 40);
}

#[test]
fn header_truncated() {
    let buf = vec![0u8; 19];
    assert_eq!(
        Header::from_slice(buf.as_slice()),
        Err(DecodeError::HeaderTruncated)
    );
}

#[test]
fn scenario_cross_file_reference() {
    // Object A defines "main" at local address 0, code length 8, references
    // "helper" at relocation site 4. Object B defines "helper" at local
    // address 0, code length 6. Merged: 14 bytes, "helper" at address 8,
    // bytes 4..8 of the output are 08 00 00 00.
    let a_code = [0x10, 0x11, 0x12, 0x13, 0, 0, 0, 0];
    let b_code = [0x20, 0x21, 0x22, 0x23, 0x24, 0x25];
    let a = build_object(&[("main", 0)], &[("helper", &[4])], &a_code);
    let b = build_object(&[("helper", 0)], &[], &b_code);
    let image = link_buffers(&vec![a, b]).expect("link should succeed");
    assert_eq!(image.len(), 14);
    assert_eq!(&image[0..4], &a_code[0..4]);
    assert_eq!(&image[4..8], &[8, 0, 0, 0]);
    assert_eq!(&image[8..14], &b_code);
}

#[test]
fn scenario_unresolved_symbol() {
    let a = build_object(&[("main", 0)], &[("missing", &[0])], &[0, 0, 0, 0]);
    match link_buffers(&vec![a]) {
        Err(LinkError::Unresolved { names }) => {
            assert_eq!(names.len(), 1);
            assert_eq!(names[0], "missing");
        }
        _ => panic!("expected an unresolved-symbol error"),
    }
}

#[test]
fn aggregated_failure_mentions_every_name() {
    let a = build_object(
        &[("main", 0)],
        &[("alpha", &[0]), ("beta", &[4])],
        &[0u8; 8],
    );
    let err = link_buffers(&vec![a]).expect_err("link should fail");
    let message = match &err {
        LinkError::Unresolved { names } => {
            assert_eq!(names.len(), 2);
            assert_eq!(names[0], "alpha");
            assert_eq!(names[1], "beta");
            err.message()
        }
        _ => panic!("expected an unresolved-symbol error"),
    };
    assert!(message.contains("alpha"));
    assert!(message.contains("beta"));
    assert_eq!(message, "Unresolved symbols: alpha, beta");
}

#[test]
fn order_sensitivity() {
    let a = build_object(&[("a", 0)], &[("a", &[0])], &[1, 2, 3, 4]);
    let b = build_object(&[("a", 0)], &[], &[5, 6, 7, 8, 9]);
    let ab = link_buffers(&vec![a.clone(), b.clone()]).expect("link should succeed");
    let ba = link_buffers(&vec![b, a]).expect("link should succeed");
    assert_ne!(ab, ba);

    // The same symbol lands at a different merged address in each order.
    let objs_ab = decode_all(&[
        build_object(&[("x", 1)], &[], &[0; 4]),
        build_object(&[("y", 1)], &[], &[0; 6]),
    ]);
    let unit = merge_objects(&objs_ab).expect("merge should succeed");
    assert_eq!(unit.symbols.get(&"x".to_string()), Some(1));
    assert_eq!(unit.symbols.get(&"y".to_string()), Some(5));
    let objs_ba = decode_all(&[
        build_object(&[("y", 1)], &[], &[0; 6]),
        build_object(&[("x", 1)], &[], &[0; 4]),
    ]);
    let unit = merge_objects(&objs_ba).expect("merge should succeed");
    assert_eq!(unit.symbols.get(&"y".to_string()), Some(1));
    assert_eq!(unit.symbols.get(&"x".to_string()), Some(7));
}

#[test]
fn round_trip_offsets() {
    // Symbol addresses contributed by object i are local + sum of the code
    // lengths of objects 0..i.
    let objs = decode_all(&[
        build_object(&[("s0", 2)], &[], &[0; 3]),
        build_object(&[("s1", 4)], &[], &[0; 5]),
        build_object(&[("s2", 6)], &[], &[0; 7]),
    ]);
    let unit = merge_objects(&objs).expect("merge should succeed");
    assert_eq!(unit.symbols.get(&"s0".to_string()), Some(2));
    assert_eq!(unit.symbols.get(&"s1".to_string()), Some(3 + 4));
    assert_eq!(unit.symbols.get(&"s2".to_string()), Some(3 + 5 + 6));
    assert_eq!(unit.code.len(), 15);
}

#[test]
fn patch_multiple_sites_across_files() {
    // "f" is referenced twice from A and once from B; every site gets the
    // same 4-byte little-endian patch.
    let a = build_object(&[], &[("f", &[0, 5])], &[0u8; 9]);
    let b = build_object(&[("f", 2)], &[("f", &[2])], &[0u8; 6]);
    let image = link_buffers(&vec![a, b]).expect("link should succeed");
    assert_eq!(image.len(), 15);
    // "f" is at local 2 in B, rebased by A's code length 9.
    assert_eq!(&image[0..4], &[11, 0, 0, 0]);
    assert_eq!(&image[5..9], &[11, 0, 0, 0]);
    assert_eq!(&image[11..15], &[11, 0, 0, 0]);
}

#[test]
fn decode_is_idempotent() {
    let buf = build_object(
        &[("one", 1), ("two", 2)],
        &[("one", &[0]), ("ref", &[4, 8])],
        &[9, 8, 7, 6],
    );
    let first = decode_object(buf.as_slice()).expect("object should decode");
    let second = decode_object(buf.as_slice()).expect("object should decode");
    assert_eq!(first.code, second.code);
    assert_eq!(first.symbols.len(), second.symbols.len());
    for i in 0..first.symbols.len() {
        assert_eq!(first.symbols.name_at(i), second.symbols.name_at(i));
        assert_eq!(first.symbols.address_at(i), second.symbols.address_at(i));
    }
    assert_eq!(first.relocations.len(), second.relocations.len());
    for i in 0..first.relocations.len() {
        assert_eq!(first.relocations.name_at(i), second.relocations.name_at(i));
        assert_eq!(first.relocations.sites_at(i), second.relocations.sites_at(i));
    }
}

#[test]
fn later_symbol_shadows_earlier() {
    let buf = build_object(&[("dup", 1), ("dup", 9)], &[], &[]);
    let obj = decode_object(buf.as_slice()).expect("object should decode");
    assert_eq!(obj.symbols.get(&"dup".to_string()), Some(9));
}

#[test]
fn later_file_shadows_earlier() {
    let objs = decode_all(&[
        build_object(&[("dup", 0)], &[], &[0; 4]),
        build_object(&[("dup", 1)], &[], &[0; 4]),
    ]);
    let unit = merge_objects(&objs).expect("merge should succeed");
    assert_eq!(unit.symbols.get(&"dup".to_string()), Some(5));
}

#[test]
fn repeated_relocation_names_accumulate() {
    let buf = build_object(&[], &[("f", &[0, 4]), ("f", &[8])], &[0; 12]);
    let obj = decode_object(buf.as_slice()).expect("object should decode");
    assert_eq!(obj.relocations.len(), 1);
    assert_eq!(obj.relocations.sites_at(0), &vec![0u32, 4, 8]);
}

#[test]
fn symbol_table_truncated() {
    // Header says one symbol but the table is empty and sits at the end.
    let mut buf = build_object(&[], &[], &[]);
    buf[4..8].copy_from_slice(&1u32.to_le_bytes());
    assert_eq!(
        decode_object(buf.as_slice()).unwrap_err(),
        DecodeError::SymbolTruncated {
            index: 0,
            part: SymbolPart::NameLength
        }
    );
}

#[test]
fn symbol_address_truncated() {
    // One symbol whose 4 address bytes are cut off.
    let mut buf = build_object(&[("ab", 0)], &[], &[]);
    buf.truncate(buf.len() - 2);
    assert_eq!(
        decode_object(buf.as_slice()).unwrap_err(),
        DecodeError::SymbolTruncated {
            index: 0,
            part: SymbolPart::Address
        }
    );
}

#[test]
fn symbol_name_not_utf8() {
    let mut buf = build_object(&[("ab", 0)], &[], &[]);
    // The two name bytes sit right after the header and the length byte.
    buf[21] = 0xFF;
    buf[22] = 0xFE;
    assert_eq!(
        decode_object(buf.as_slice()).unwrap_err(),
        DecodeError::SymbolNameNotUtf8 { index: 0 }
    );
}

#[test]
fn relocation_sites_truncated() {
    // The entry announces two sites but only one fits in the buffer.
    let mut buf = build_object(&[], &[("f", &[0, 4])], &[]);
    buf.truncate(buf.len() - 4);
    assert_eq!(
        decode_object(buf.as_slice()).unwrap_err(),
        DecodeError::RelocationTruncated {
            index: 0,
            part: RelocationPart::Site
        }
    );
}

#[test]
fn code_offset_out_of_bounds() {
    let mut buf = build_object(&[], &[], &[]);
    buf[16..20].copy_from_slice(&21u32.to_le_bytes());
    assert_eq!(
        decode_object(buf.as_slice()).unwrap_err(),
        DecodeError::CodeOffsetOutOfBounds
    );
}

#[test]
fn code_runs_to_end_of_buffer() {
    let buf = build_object(&[("a", 0)], &[], &[1, 2, 3]);
    let obj = decode_object(buf.as_slice()).expect("object should decode");
    assert_eq!(obj.code, vec![1, 2, 3]);
}

#[test]
fn decode_error_names_failing_file() {
    let good = build_object(&[("a", 0)], &[], &[0; 2]);
    let bad = vec![0u8; 5];
    match link_buffers(&vec![good, bad]) {
        Err(LinkError::Decode { file, error }) => {
            assert_eq!(file, 1);
            assert_eq!(error, DecodeError::HeaderTruncated);
        }
        _ => panic!("expected a decode error naming file 1"),
    }
}

#[test]
fn site_out_of_range() {
    let a = build_object(&[("f", 0)], &[("f", &[100])], &[0; 4]);
    match link_buffers(&vec![a]) {
        Err(LinkError::SiteOutOfRange { site }) => assert_eq!(site, 100),
        _ => panic!("expected a site-out-of-range error"),
    }
}

#[test]
fn rebased_address_overflow() {
    let a = build_object(&[], &[], &[0; 4]);
    let b = build_object(&[("x", u32::MAX)], &[], &[]);
    match link_buffers(&vec![a, b]) {
        Err(LinkError::ImageTooLarge) => {}
        _ => panic!("expected an image-too-large error"),
    }
}

#[test]
fn linking_nothing_gives_empty_image() {
    let image = link_buffers(&Vec::new()).expect("empty link should succeed");
    assert!(image.is_empty());
}

#[test]
fn link_objects_accepts_decoded_records() {
    let objs = decode_all(&[
        build_object(&[("entry", 0)], &[("lib", &[0])], &[0; 4]),
        build_object(&[("lib", 0)], &[], &[0xAB]),
    ]);
    let image = link_objects(objs).expect("link should succeed");
    assert_eq!(image, vec![4, 0, 0, 0, 0xAB]);
}

#[test]
fn references_accumulate_across_files() {
    // Both files reference "f"; each file's sites are rebased by its own
    // base address and all get the same patch.
    let a = build_object(&[], &[("f", &[0])], &[0; 4]);
    let b = build_object(&[("f", 1)], &[("f", &[0])], &[0; 5]);
    let image = link_buffers(&vec![a, b]).expect("link should succeed");
    assert_eq!(image.len(), 9);
    assert_eq!(&image[0..4], &[5, 0, 0, 0]);
    assert_eq!(&image[4..8], &[5, 0, 0, 0]);
    assert_eq!(image[8], 0);
}

#[test]
fn relocation_name_not_utf8() {
    let mut buf = build_object(&[], &[("ab", &[])], &[]);
    // The two name bytes sit right after the header and the length byte.
    buf[21] = 0xFF;
    buf[22] = 0xFE;
    assert_eq!(
        decode_object(buf.as_slice()).unwrap_err(),
        DecodeError::RelocationNameNotUtf8 { index: 0 }
    );
}

#[test]
fn symbol_name_bytes_truncated() {
    let mut buf = build_object(&[("abcde", 0)], &[], &[]);
    // Cut into the name bytes themselves.
    buf.truncate(20 + 1 + 2);
    assert_eq!(
        decode_object(buf.as_slice()).unwrap_err(),
        DecodeError::SymbolTruncated {
            index: 0,
            part: SymbolPart::NameBytes
        }
    );
}

#[test]
fn relocation_site_count_truncated() {
    let mut buf = build_object(&[], &[("f", &[])], &[]);
    buf.truncate(buf.len() - 2);
    assert_eq!(
        decode_object(buf.as_slice()).unwrap_err(),
        DecodeError::RelocationTruncated {
            index: 0,
            part: RelocationPart::SiteCount
        }
    );
}

#[test]
fn empty_symbol_name_decodes() {
    let buf = build_object(&[("", 3)], &[], &[7]);
    let obj = decode_object(buf.as_slice()).expect("object should decode");
    assert_eq!(obj.symbols.get(&String::new()), Some(3));
    assert_eq!(obj.code, vec![7]);
}

#[test]
fn second_relocation_error_reports_its_index() {
    // The first entry is whole; the second entry's name length byte is
    // missing, so the error names index 1.
    let mut buf = build_object(&[], &[("f", &[0]), ("g", &[4])], &[]);
    let second_entry = 20 + (1 + 1 + 4 + 4);
    buf.truncate(second_entry);
    assert_eq!(
        decode_object(buf.as_slice()).unwrap_err(),
        DecodeError::RelocationTruncated {
            index: 1,
            part: RelocationPart::NameLength
        }
    );
}

#[test]
fn zero_site_relocation_entry_records_nothing() {
    // An entry whose site count is 0 references nothing: the name never
    // enters the relocation table, and an undefined name with no sites does
    // not fail the link.
    let a = build_object(&[("main", 0)], &[("phantom", &[])], &[1, 2, 3, 4]);
    let obj = decode_object(a.as_slice()).expect("object should decode");
    assert_eq!(obj.relocations.len(), 0);
    let image = link_buffers(&vec![a]).expect("link should succeed");
    assert_eq!(image, vec![1, 2, 3, 4]);
}

#[test]
fn decode_message_names_field_and_index() {
    let mut buf = build_object(&[("ab", 0)], &[], &[]);
    buf.truncate(buf.len() - 2);
    let error = decode_object(buf.as_slice()).unwrap_err();
    assert_eq!(
        error.message(),
        "symbol 0: address runs past the end of the buffer"
    );
    let link_error = link_buffers(&vec![build_object(&[], &[], &[]), buf]).unwrap_err();
    assert_eq!(
        link_error.message(),
        "object file 1 failed to decode: symbol 0: address runs past the end of the buffer"
    );
}

#[test]
fn decode_message_renders_multi_digit_index() {
    // 12 whole symbols, then one whose name bytes are cut off.
    let mut symbols: Vec<(&str, u32)> = Vec::new();
    for _ in 0..12 {
        symbols.push(("s", 0));
    }
    symbols.push(("abcde", 0));
    let mut buf = build_object(&symbols, &[], &[]);
    buf.truncate(buf.len() - 8);
    let error = decode_object(buf.as_slice()).unwrap_err();
    assert_eq!(
        error.message(),
        "symbol 12: name bytes runs past the end of the buffer"
    );
}
