use canteen::table::{
    color_text, format_field, get_alignment, header_text, pad_gen, row_text, widen, Align, Color,
    ColumnType,
};

#[test]
fn test_color() {
    assert_eq!(
        "\x1B[33m\x1B[1m\x1B[33m\x1B[37mfoo\x1B[33m\x1B[0m",
        color_text("foo", Color::BoldWhite)
    );
}

#[test]
fn test_alignment() {
    assert_eq!(get_alignment(&ColumnType::Int4), Align::Right);
}

#[test]
fn test_padding() {
    assert_eq!("     ", pad_gen(5, " "));
    assert_eq!("-----", pad_gen(5, "-"));
}

#[test]
fn test_formatting() {
    assert_eq!("foo   ", format_field("foo", 6, Align::Left));
    assert_eq!("   foo", format_field("foo", 6, Align::Right));
    assert_eq!(" foo  ", format_field("foo", 6, Align::Center));
}

#[test]
fn table_edges() {
    assert_eq!("", pad_gen(0, "-"));
    assert_eq!("abab", pad_gen(2, "ab"));
    assert_eq!("foobar", format_field("foobar", 3, Align::Center));
    assert_eq!("\x1B[33m\x1B[37mx\x1B[33m\x1B[0m", color_text("x", Color::White));
    assert_eq!(get_alignment(&ColumnType::Text), Align::Left);
    assert_eq!(get_alignment(&ColumnType::Date), Align::Right);
    let line = row_text(
        &vec![ColumnType::Int4, ColumnType::Text],
        &vec![3, 4],
        &vec![String::from("7"), String::from("ab")],
    );
    assert_eq!("   7 \x1B[33m\x1B[1m\x1B[33m\x1B[37m|\x1B[33m\x1B[0m ab   ", line);
}

#[test]
fn table_header_and_widths() {
    let mut widths = vec![2, 1];
    widen(&mut widths, &vec![String::from("a"), String::from("abc"), String::from("zz")]);
    assert_eq!(vec![2, 3], widths);
    let bold = "\x1B[33m\x1B[1m\x1B[33m\x1B[37m";
    let off = "\x1B[33m\x1B[0m";
    let head = header_text(&widths, &vec![String::from("id"), String::from("n")]);
    let expected = format!(
        " {b}id{o} {b}|{o} {b} n {o} \n{b}----{o}{b}|{o}{b}-----{o}\n",
        b = bold,
        o = off
    );
    assert_eq!(expected, head);
}
