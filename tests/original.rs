use std::cmp::Ordering;

use editor::{Context, Document, Location, Range};

#[test]
fn context_test1() {
    let mut editor = Context::with_size(9, 9);
    for ln in 0..9 {
        for col in 0..9 {
            if ln == col {
                editor.input("汉");
            } else {
                editor.input(&format!("{}", ln));
            }
        }
        editor.input("\n");
    }
    // The last line feed puts the cursor on the tenth row of a nine-row
    // viewport, and centering scrolls one row down: start from the origin.
    while editor.offset_top() > 0 {
        editor.scroll_down();
    }
    while editor.offset_left() > 0 {
        editor.scroll_right();
    }
    for _ in 0..3 {
        editor.scroll_up();
    }
    for _ in 0..4 {
        editor.scroll_left();
    }
    let s = &editor.visual_area()[0];
    assert_eq!(s, "<33333");
}

#[test]
fn document_test1() {
    let mut doc = Document::from("Hello你好\nWorld世界");
    let pchar = doc.get_character(Location { ln: 1, col: 2 }).unwrap();
    assert_eq!(pchar.char, 'r');
    doc.remove(Range {
        start: Location { ln: 0, col: 7 },
        end: Location { ln: 0, col: 8 },
    });
    doc.insert(Location { ln: 0, col: 7 }, "，");
    let result: String = doc.into();
    assert_eq!(result, "Hello你好，World世界".to_string());
}

#[test]
fn document_test2() {
    let mut doc = Document::default();
    doc.insert(Location { ln: 0, col: 0 }, "nihao你好");
    doc.insert(Location { ln: 0, col: 99 }, "，世界");
    doc.insert(Location { ln: 0, col: 8 }, "我的");
    let start = Location { ln: 0, col: 0 };
    let end = Location { ln: 0, col: 5 };
    doc.remove(Range::new(start, end));
    assert_eq!(doc.to_text(), "你好，我的世界");
}

#[test]
fn test3() {
    let doc = Document::from("rust\n铁锈");
    let result = doc
        .lines()
        .iter()
        .map(|line| line.iter().map(|c| c.char).collect::<String>())
        .collect::<Vec<String>>()
        .join("\n");
    assert_eq!(result, "rust\n铁锈");
}

#[test]
fn test4() {
    let doc = Document::from("rust\n铁锈");
    let before_char = doc.before(Location { ln: 1, col: 1 }).unwrap();
    assert_eq!(before_char.char, '铁');
    assert_eq!(before_char.location, Location { ln: 1, col: 0 });
    let after_char = doc.after(Location { ln: 1, col: 0 }).unwrap();
    assert_eq!(after_char.char, '锈');
    assert_eq!(after_char.location, Location { ln: 1, col: 1 });
}

#[test]
fn test5() {
    let mut doc = Document::default();
    doc.insert(Location { ln: 0, col: 0 }, "\n");
    doc.insert(Location { ln: 1, col: 1 }, "\n");
    doc.insert(Location { ln: 2, col: 1 }, "1");
    doc.insert(Location { ln: 2, col: 2 }, "2");
    doc.insert(Location { ln: 2, col: 3 }, "3");
    for line in doc.lines() {
        println!("{:?}", line.iter().map(|c| c.char).collect::<Vec<char>>());
    }
}

#[test]
fn test_name() {
    let a = Location { ln: 5, col: 5 };
    let b = Location { ln: 5, col: 4 };
    let c = Location { ln: 6, col: 5 };
    let d = Location { ln: 5, col: 5 };
    assert!(a > b);
    assert!(a < c);
    assert!(a == d);
    assert_eq!(a.partial_cmp(&b), Some(Ordering::Greater));
}
