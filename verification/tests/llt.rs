use lib::llt::{llt_align, llt_bytes, llt_fields, vec_llt};

#[test]
fn scalar_sizes() {
    assert_eq!(llt_bytes("ptr"), 8);
    assert_eq!(llt_bytes("double"), 8);
    assert_eq!(llt_bytes("float"), 4);
    assert_eq!(llt_bytes("i1"), 1);
    assert_eq!(llt_bytes("i8"), 1);
    assert_eq!(llt_bytes("i32"), 4);
    assert_eq!(llt_bytes("i33"), 5);
    assert_eq!(llt_bytes("i64"), 8);
}

#[test]
fn unrecognised_text_sizes_to_zero() {
    assert_eq!(llt_bytes("void"), 0);
    assert_eq!(llt_bytes("i"), 0);
    assert_eq!(llt_bytes("ix"), 0);
    assert_eq!(llt_bytes(""), 0);
    assert_eq!(llt_bytes("[4 i32]"), 0);
    assert_eq!(llt_bytes("[ x i32]"), 0);
    assert_eq!(llt_bytes("["), 0);
}

#[test]
fn surrounding_whitespace_is_ignored() {
    assert_eq!(llt_bytes("  i32\n"), 4);
    assert_eq!(llt_bytes("\t[ 2 x i64 ] "), 16);
    assert_eq!(llt_align(" double "), 8);
}

#[test]
fn count_accepts_a_plus_sign() {
    assert_eq!(llt_bytes("[+3 x i16]"), 6);
    assert_eq!(llt_bytes("i+16"), 2);
}

#[test]
fn array_sizes() {
    assert_eq!(llt_bytes("[4 x i32]"), 16);
    assert_eq!(llt_bytes("[2 x [3 x i16]]"), 12);
    assert_eq!(llt_bytes("[0 x double]"), 0);
    assert_eq!(llt_bytes("[1024 x float]"), 4096);
}

#[test]
fn struct_sizes_follow_the_layout() {
    assert_eq!(llt_bytes("{ i8, i32 }"), 8);
    assert_eq!(llt_bytes("{ i64, i8 }"), 16);
    assert_eq!(llt_bytes("{ i8, { i16, i8 }, double }"), 16);
    assert_eq!(llt_bytes("{ i8, [3 x i8] }"), 4);
    assert_eq!(llt_bytes("{ ptr, [2 x { i32, i8 }] }"), 24);
    assert_eq!(llt_bytes("{}"), 0);
    assert_eq!(llt_bytes("{ }"), 0);
}

#[test]
fn alignments() {
    assert_eq!(llt_align("i1"), 1);
    assert_eq!(llt_align("i16"), 2);
    assert_eq!(llt_align("void"), 1);
    assert_eq!(llt_align("[4 x double]"), 8);
    assert_eq!(llt_align("[4 double]"), 1);
    assert_eq!(llt_align("{ i8, [2 x i64] }"), 8);
    assert_eq!(llt_align("{ i8, { i16, i8 } }"), 2);
    assert_eq!(llt_align("{}"), 1);
}

#[test]
fn size_is_a_multiple_of_alignment() {
    for t in [
        "{ i8, i32 }",
        "{ i64, i8 }",
        "{ i8, { i16, i8 }, double }",
        "[3 x { i32, i8 }]",
        "{ i1, i1, i1 }",
        "i24",
    ] {
        assert_eq!(llt_bytes(t) % llt_align(t), 0, "{t}");
    }
}

#[test]
fn fields_split_on_top_level_commas() {
    assert_eq!(
        llt_fields("i8, { i16, i8 }, [2 x i32]"),
        vec!["i8", "{ i16, i8 }", "[2 x i32]"]
    );
    assert_eq!(llt_fields(" ptr ,double "), vec!["ptr", "double"]);
}

#[test]
fn fields_keep_inner_empties_but_drop_an_empty_tail() {
    assert_eq!(llt_fields("a,,b"), vec!["a", "", "b"]);
    assert_eq!(llt_fields("a, b,"), vec!["a", "b"]);
    assert_eq!(llt_fields(""), Vec::<&str>::new());
    assert_eq!(llt_fields("  "), Vec::<&str>::new());
    assert_eq!(llt_fields(","), vec![""]);
}

#[test]
fn vector_type_text() {
    assert_eq!(vec_llt("float", 8), "<8 x float>");
    assert_eq!(vec_llt("double", 16), "<16 x double>");
}
