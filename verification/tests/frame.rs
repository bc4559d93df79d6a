use lib::frame::{wait_global, FrameField, FrameLayout, PackedField, WaitEntry};
use lib::llt::{llt_bytes, llt_fields};

fn field(owner: usize, index: u32, llt: &str) -> Option<FrameField> {
    Some(FrameField { owner, index, ordinal: owner as u32, llt: llt.to_string() })
}

#[test]
fn frame_struct_lists_ordered_fields_then_packed_pointers() {
    let frame = FrameLayout {
        fields: vec![field(0, 1, "i32"), None, field(2, 0, "[4 x double]")],
        order: vec![2, 0],
        packed: vec![None, Some(PackedField { index: 2, ordinal: 0 }), Some(PackedField { index: 3, ordinal: 1 })],
    };
    assert_eq!(frame.struct_llt(), "{ [4 x double], i32, ptr, ptr }");
    assert_eq!(frame.definition(), "%Frame = type { [4 x double], i32, ptr, ptr }\n");
}

#[test]
fn frame_struct_text_sizes_as_its_fields() {
    let frame = FrameLayout {
        fields: vec![field(0, 0, "i8"), field(1, 1, "{ i16, i8 }"), field(2, 2, "double")],
        order: vec![0, 1, 2],
        packed: vec![Some(PackedField { index: 3, ordinal: 0 })],
    };
    let text = frame.struct_llt();
    assert_eq!(llt_fields(&text[1..text.len() - 1]), vec!["i8", "{ i16, i8 }", "double", "ptr"]);
    assert_eq!(llt_bytes(&text), 24);
}

#[test]
fn empty_frame() {
    let frame = FrameLayout { fields: vec![], order: vec![], packed: vec![] };
    assert_eq!(frame.struct_llt(), "{  }");
    assert_eq!(llt_bytes(&frame.struct_llt()), 0);
}

#[test]
fn packed_only_frame() {
    let frame = FrameLayout { fields: vec![], order: vec![], packed: vec![Some(PackedField { index: 0, ordinal: 0 })] };
    assert_eq!(frame.struct_llt(), "{ ptr }");
}

#[test]
fn empty_wait_table_is_zero_initialized() {
    assert_eq!(
        wait_global("ckpt0_entries", &[]),
        "@ckpt0_entries = private unnamed_addr constant [0 x i64] zeroinitializer\n"
    );
}

#[test]
fn wait_words_pack_task_and_threshold() {
    let wait = [
        WaitEntry { task: 1, threshold: Some(5) },
        WaitEntry { task: 0, threshold: None },
        WaitEntry { task: 3, threshold: Some(0) },
    ];
    assert_eq!(
        wait_global("pin2_entries", &wait),
        "@pin2_entries = private unnamed_addr constant [3 x i64] [i64 4294967301, i64 4294967295, i64 12884901888]\n"
    );
}

#[test]
fn wait_word_halves_read_back() {
    let text = wait_global("w", &[WaitEntry { task: 7, threshold: Some(9) }]);
    let word: u64 = text.rsplit("i64 ").next().unwrap().trim_end_matches("]\n").parse().unwrap();
    assert_eq!(word >> 32, 7);
    assert_eq!(word & 0xFFFF_FFFF, 9);
}

#[test]
fn frame_struct_body_reads_back_its_fields() {
    let frame = FrameLayout {
        fields: vec![field(0, 0, "[2 x { i32, [3 x i8] }]"), field(1, 1, "i64")],
        order: vec![1, 0],
        packed: vec![Some(PackedField { index: 2, ordinal: 0 })],
    };
    let text = frame.struct_llt();
    assert_eq!(llt_fields(&text[1..text.len() - 1]), vec!["i64", "[2 x { i32, [3 x i8] }]", "ptr"]);
    let empty = FrameLayout { fields: vec![], order: vec![], packed: vec![] }.struct_llt();
    assert!(llt_fields(&empty[1..empty.len() - 1]).is_empty());
}
