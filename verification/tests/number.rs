use quark::chars::{chars_of, parse_usize, replace};
use quark::number::{
    at_most, at_most_single, less, less_single, nan, nan_single, order, total_order,
    total_order_single,
};
use quark::order::{comes_before, ranked, ranked_numbers, sorted_texts};
use quark::text::{append_left_aligned, append_right_aligned, decimal_string, join};

fn doubles() -> Vec<f64> {
    vec![
        0.0,
        -0.0,
        1.0,
        -1.0,
        1.5,
        0.1,
        -0.1,
        f64::MIN_POSITIVE,
        -f64::MIN_POSITIVE,
        5e-324,
        f64::MAX,
        f64::MIN,
        f64::INFINITY,
        f64::NEG_INFINITY,
        f64::NAN,
        -f64::NAN,
        f64::from_bits(0x7ff0_0000_0000_0001),
    ]
}

fn singles() -> Vec<f32> {
    let mut v: Vec<f32> = doubles().iter().map(|&x| x as f32).collect();
    v.push(f32::MIN_POSITIVE);
    v.push(-1e-45);
    v
}

#[test]
fn bit_patterns_compare_as_the_numbers_do() {
    for a in doubles() {
        assert_eq!(nan(a.to_bits()), a.is_nan());
        for b in doubles() {
            let (x, y) = (a.to_bits(), b.to_bits());
            assert_eq!(less(x, y), a < b, "{a} < {b}");
            assert_eq!(at_most(x, y), a <= b, "{a} <= {b}");
            assert_eq!(
                total_order(x).cmp(&total_order(y)),
                a.total_cmp(&b),
                "{a} and {b}"
            );
        }
    }
    assert_eq!(order((-0.0f64).to_bits()), 0);
}

#[test]
fn single_bit_patterns_compare_as_the_numbers_do() {
    for a in singles() {
        assert_eq!(nan_single(a.to_bits()), a.is_nan());
        for b in singles() {
            let (x, y) = (a.to_bits(), b.to_bits());
            assert_eq!(less_single(x, y), a < b, "{a} < {b}");
            assert_eq!(at_most_single(x, y), a <= b, "{a} <= {b}");
            assert_eq!(
                total_order_single(x).cmp(&total_order_single(y)),
                a.total_cmp(&b),
                "{a} and {b}"
            );
        }
    }
}

#[test]
fn rankings_are_stable() {
    assert_eq!(ranked(&vec![3, 1, 2, 1, 3]), vec![1, 3, 2, 0, 4]);
    assert_eq!(ranked(&Vec::new()), Vec::<usize>::new());
    let bits: Vec<u64> = doubles().iter().map(|x| x.to_bits()).collect();
    let mut want: Vec<usize> = (0..bits.len()).collect();
    want.sort_by(|&a, &b| doubles()[a].total_cmp(&doubles()[b]));
    assert_eq!(ranked_numbers(&bits), want);
}

#[test]
fn texts_are_ordered_as_std_orders_them() {
    let words = ["", "a", "ab", "b", "B", "é", "z", "日", "🦀", "a\u{0}", "ab"];
    for a in words {
        for b in words {
            assert_eq!(comes_before(a, b), a < b, "{a:?} < {b:?}");
        }
    }
    let list: Vec<String> = words.iter().map(|w| w.to_string()).collect();
    let mut want = list.clone();
    want.sort();
    assert_eq!(sorted_texts(list), want);
}

#[test]
fn machine_numbers_are_read_as_std_reads_them() {
    for s in [
        "0", "7", "007", "+7", "+", "-1", "", "++1", "1+", " 1", "1 ", "١", "1_000",
        "18446744073709551615", "18446744073709551616", "99999999999999999999999",
        "000000000000000000000000000001",
    ] {
        assert_eq!(parse_usize(&chars_of(s)), s.parse::<usize>().ok(), "{s:?}");
    }
}

#[test]
fn texts_are_built_as_std_formats_them() {
    for n in [0, 7, 10, 99, 100, 12345, usize::MAX] {
        assert_eq!(decimal_string(n), n.to_string());
    }
    for s in ["", "abc", "é日", "longer than it"] {
        let mut left = String::from("|");
        append_left_aligned(&mut left, s, 8);
        assert_eq!(left, format!("|{s:<8}"));
        let mut right = String::from("|");
        append_right_aligned(&mut right, s, 8);
        assert_eq!(right, format!("|{s:>8}"));
    }
    let items: Vec<String> = ["a", "", "c"].iter().map(|s| s.to_string()).collect();
    assert_eq!(join(&items, "--"), items.join("--"));
    assert_eq!(join(&Vec::new(), "--"), "");
}

#[test]
fn replacing_is_from_the_left() {
    for (text, pattern, with) in [
        ("aaa", "aa", "b"),
        ("abcabc", "abc", ""),
        ("no match", "xyz", "!"),
        ("日本日本", "日", "é"),
        ("", "a", "b"),
        ("ab", "abc", "d"),
    ] {
        assert_eq!(replace(text, pattern, with), text.replace(pattern, with));
    }
}
