use mycelium::bitfield::unicode::{unicode_display, FieldLayout};
use mycelium::bitfield::TestBitfield;
use mycelium::example::TestEnum;

#[derive(Debug)]
#[allow(dead_code)]
struct TestDebug {
    value: usize,
    bits: TestBitfield,
}

#[test]
fn test_bitfield_format() {
    let test_bitfield = TestBitfield::new()
        .with(TestBitfield::hello(), 0b1001)
        .with(TestBitfield::world(), true)
        .with(TestBitfield::have(), TestEnum::Bar)
        .with(TestBitfield::lots(), 0b11010)
        .with(TestBitfield::of(), 0)
        .with(TestBitfield::fun(), 9);

    let ascii = test_bitfield.to_string();
    assert_eq!(ascii, test_bitfield.display_ascii());

    println!("test ASCII display:\n{ascii}");
    println!("test unicode display:\n{}\n", test_bitfield.display_unicode());

    let test_debug = TestDebug {
        value: 42,
        bits: test_bitfield,
    };

    println!("test_debug(alt): {test_debug:#?}\n");

    println!("test_debug: {test_debug:?}\n");
}

#[test]
fn macro_bitfield_valid() {
    TestBitfield::assert_valid();
}

#[test]
fn ascii_display_shows_each_field_in_place() {
    let test_bitfield = TestBitfield::new()
        .with(TestBitfield::hello(), 0b1001)
        .with(TestBitfield::world(), true)
        .with(TestBitfield::have(), TestEnum::Bar)
        .with(TestBitfield::lots(), 0b11010)
        .with(TestBitfield::of(), 0)
        .with(TestBitfield::fun(), 9);
    let expected = "\
00000000000010010110100110001001
............................1001 HELLO: 9
........................1....... WORLD: true
......................01........ HAVE: Bar
.................11010.......... LOTS: 26
................0............... OF: 0
..........001001................ FUN: 9
";
    assert_eq!(test_bitfield.display_ascii(), expected);
    assert_eq!(test_bitfield.get(TestBitfield::lots()), 0b11010);
    assert_eq!(test_bitfield.get(TestBitfield::have()), TestEnum::Bar);
    assert!(test_bitfield.get(TestBitfield::world()));
}

#[test]
fn set_changes_one_field() {
    let mut bits = TestBitfield::from_bits(0);
    bits.set(TestBitfield::fun(), 63);
    assert_eq!(bits.bits(), 63 << 16);
    bits.set(TestBitfield::hello(), 5);
    assert_eq!(bits.get(TestBitfield::hello()), 5);
    assert_eq!(bits.get(TestBitfield::fun()), 63);
}

#[test]
fn unicode_display_draws_brackets_and_leaders() {
    let test_bitfield = TestBitfield::new()
        .with(TestBitfield::hello(), 0b1001)
        .with(TestBitfield::world(), true)
        .with(TestBitfield::have(), TestEnum::Bar)
        .with(TestBitfield::lots(), 0b11010)
        .with(TestBitfield::of(), 0)
        .with(TestBitfield::fun(), 9);
    let expected = "\
00000000000010010110100110001001
          └┬───┘│└┬──┘└┤│   └┬─┘
           │    │ │    ││    └─ HELLO: 9 (1001)
           │    │ │    │└────── WORLD: true (1)
           │    │ │    └──────── HAVE: Bar (01)
           │    │ └───────────── LOTS: 26 (11010)
           │    └───────────────── OF: 0 (0)
           └───────────────────── FUN: 9 (001001)
";
    assert_eq!(test_bitfield.display_unicode(), expected);
}

#[test]
fn unicode_display_with_reserved_lowest_field() {
    let fields = vec![
        FieldLayout { name: "COUNT", msb: 10, bits: 4 },
        FieldLayout { name: "MODE", msb: 6, bits: 3 },
        FieldLayout { name: "FLAG", msb: 3, bits: 1 },
        FieldLayout { name: "_LOW", msb: 2, bits: 2 },
    ];
    let values = vec![11, 5, 0, 3];
    let texts = vec![
        "11".to_string(),
        "5".to_string(),
        "false".to_string(),
        String::new(),
    ];
    let word = 0b0010_1110_1011;
    let expected = "001011101011\n  └┬─┘└┬┘│  \n   │   │ └─── FLAG: false (0)\n   │   └───── MODE: 5 (101)\n   └──────── COUNT: 11 (1011)\n";
    assert_eq!(unicode_display(word, 12, &fields, &values, &texts), expected);
}
