use yank::history::{copied, entries, entry_name, newest, newest_first, stale, Entry, KEEP};
use yank::order::{is_before, sort_names};

fn name(micros: u128) -> Vec<u8> {
    entry_name(Some(micros)).into_bytes()
}

fn bytes(names: &[&str]) -> Vec<Vec<u8>> {
    names.iter().map(|n| n.as_bytes().to_vec()).collect()
}

fn listed(list: &[Entry]) -> Vec<(Vec<u8>, String)> {
    list.iter().map(|e| (e.name.clone(), e.text.clone())).collect()
}

#[test]
fn names_have_twenty_digits() {
    assert_eq!(entry_name(Some(1_700_000_000_123_456)), "00001700000000123456.txt");
    assert_eq!(entry_name(Some(0)), "00000000000000000000.txt");
    assert_eq!(entry_name(None), "00000000000000000000.txt");
    let long = 100_000_000_000_000_000_000u128;
    assert_eq!(entry_name(Some(long)), "100000000000000000000.txt");
    assert_eq!(entry_name(Some(u128::MAX)), format!("{:020}.txt", u128::MAX));
}

#[test]
fn names_stand_in_the_order_of_time() {
    let times = [0u128, 1, 9, 10, 999, 1000, 1_700_000_000_000_000, 99_999_999_999_999_999_999];
    for a in times {
        for b in times {
            assert_eq!(is_before(&name(a), &name(b)), a < b);
        }
    }
}

#[test]
fn a_longer_name_can_stand_before_a_shorter_one() {
    let last_short = 99_999_999_999_999_999_999u128;
    assert!(!is_before(&name(last_short), &name(last_short + 1)));
    assert!(is_before(&name(10_000_000_000_000_000_000), &name(last_short + 1)));
    assert!(is_before(&name(10_000_000_000_000_000_000), &name(last_short * 2)));
}

#[test]
fn byte_strings_are_ordered_as_vectors_are() {
    let all = bytes(&["", "a", "aa", "ab", "b", "B", "\u{e9}", "a.txt", "a0.txt"]);
    for a in &all {
        for b in &all {
            assert_eq!(is_before(a, b), a < b);
        }
    }
    assert!(is_before(&vec![0x7f], &vec![0x80]));
}

#[test]
fn names_are_sorted() {
    let names = bytes(&["b", "a", "c", "a", "", "ab", "B"]);
    let mut want = names.clone();
    want.sort();
    assert_eq!(sort_names(names.clone()), want);
    want.reverse();
    assert_eq!(newest_first(names), want);
    assert!(sort_names(Vec::new()).is_empty());
    assert!(newest_first(Vec::new()).is_empty());
}

#[test]
fn nothing_is_stale_up_to_the_cap() {
    assert_eq!(KEEP, 100);
    assert!(stale(Vec::new()).is_empty());
    assert!(stale((0..100).map(name).collect()).is_empty());
}

#[test]
fn the_oldest_are_stale_beyond_the_cap() {
    let mut names: Vec<Vec<u8>> = (0..103).map(name).collect();
    names.reverse();
    names.swap(5, 77);
    assert_eq!(stale(names), vec![name(0), name(1), name(2)]);
}

#[test]
fn unreadable_files_are_passed_over() {
    let list = entries(
        bytes(&["c", "b", "a"]),
        vec![Some("C".to_string()), None, Some("A".to_string())],
    );
    assert_eq!(
        listed(&list),
        vec![(b"c".to_vec(), "C".to_string()), (b"a".to_vec(), "A".to_string())]
    );
    assert_eq!(newest(&list), Some("C".to_string()));
    assert!(entries(Vec::new(), Vec::new()).is_empty());
    assert_eq!(newest(&Vec::new()), None);
}

#[test]
fn a_name_is_copied() {
    assert_eq!(copied(&b"x.txt".to_vec()), b"x.txt".to_vec());
}

/// A directory in memory.
struct Dir(Vec<(Vec<u8>, String)>);

impl Dir {
    fn names(&self) -> Vec<Vec<u8>> {
        self.0.iter().map(|f| f.0.clone()).collect()
    }

    fn remove(&mut self, name: &[u8]) {
        self.0.retain(|f| f.0 != name);
    }

    fn store(&mut self, micros: u128, text: &str) {
        let n = name(micros);
        self.remove(&n);
        self.0.insert(0, (n, text.to_string()));
        for gone in stale(self.names()) {
            self.remove(&gone);
        }
    }

    fn history(&self) -> Vec<Entry> {
        let names = newest_first(self.names());
        let texts = names
            .iter()
            .map(|n| self.0.iter().find(|f| &f.0 == n).map(|f| f.1.clone()))
            .collect();
        entries(names, texts)
    }
}

#[test]
fn the_history_is_what_was_stored_last() {
    let mut dir = Dir(Vec::new());
    for i in 0..250u128 {
        dir.store(1_700_000_000_000_000 + 7 * i, &format!("text {}", i));
        assert_eq!(newest(&dir.history()), Some(format!("text {}", i)));
        assert_eq!(dir.0.len() as u128, (i + 1).min(100));
    }
    let texts: Vec<String> = dir.history().into_iter().map(|e| e.text).collect();
    let want: Vec<String> = (150..250).rev().map(|i| format!("text {}", i)).collect();
    assert_eq!(texts, want);
}

#[test]
fn storing_at_one_instant_overwrites() {
    let mut dir = Dir(Vec::new());
    dir.store(5, "a");
    dir.store(5, "b");
    assert_eq!(listed(&dir.history()), vec![(name(5), "b".to_string())]);
}

#[test]
fn deleting_takes_one_entry_out() {
    let mut dir = Dir(Vec::new());
    for i in 0..5 {
        dir.store(i, &format!("t{}", i));
    }
    let gone = dir.history()[2].name.clone();
    dir.remove(&gone);
    let texts: Vec<String> = dir.history().into_iter().map(|e| e.text).collect();
    assert_eq!(texts, vec!["t4", "t3", "t1", "t0"]);
}
