use interner::{Interner, StringInterner, StringSymbol, Symbol};

fn assert_id(interner: &mut StringInterner, new_symbol: &'static str, expected_id: u32) {
    let actual_id = interner.intern_or_get(new_symbol).id();
    assert_eq!(actual_id, expected_id,);
}

fn assert_resolve<E>(interner: &mut StringInterner, symbol_id: u32, expected_str: E)
where
    E: Into<Option<&'static str>>,
{
    let actual_str = interner.resolve(Symbol::from_raw(symbol_id).unwrap());
    assert_eq!(actual_str.cloned(), expected_str.into(),);
}

fn ids_of(table: &mut Interner<u64>, values: &[u64]) -> Vec<u32> {
    let mut ids = Vec::new();
    for v in values {
        ids.push(table.intern_or_get(*v).id());
    }
    ids
}

#[test]
fn simple() {
    let mut interner = StringInterner::new();
    assert_id(&mut interner, "Hello", 1);
    assert_id(&mut interner, ", World!", 2);
    assert_id(&mut interner, "1 2 3", 3);
    assert_id(&mut interner, "Hello", 1);

    assert_resolve(&mut interner, 1, "Hello");
    assert_resolve(&mut interner, 2, ", World!");
    assert_resolve(&mut interner, 3, "1 2 3");
    assert_resolve(&mut interner, 4, None);
}

#[test]
fn new_table_is_empty() {
    let table: Interner<u64> = Interner::new();
    assert_eq!(table.len(), 0);
    assert!(table.values().is_empty());
    assert_eq!(table.resolve(Symbol::from_raw(1).unwrap()), None);
    assert_eq!(table.get(&0), None);
}

#[test]
fn zero_names_no_symbol() {
    assert!(Symbol::<u64>::from_raw(0).is_none());
    assert!(StringSymbol::from_raw(0).is_none());
}

#[test]
fn symbol_keeps_its_number() {
    assert_eq!(Symbol::<u64>::from_raw(1).unwrap().id(), 1);
    assert_eq!(Symbol::<u64>::from_raw(77).unwrap().id(), 77);
    assert_eq!(Symbol::<u64>::from_raw(u32::MAX).unwrap().id(), u32::MAX);
}

#[test]
fn symbol_is_copied_and_compared() {
    let mut table: Interner<String> = Interner::new();
    let a = table.intern_or_get(String::from("a"));
    let b = table.intern_or_get(String::from("b"));
    let a_copy = a;
    let a_clone = a.clone();
    assert_eq!(a, a_copy);
    assert_eq!(a, a_clone);
    assert_ne!(a, b);
    assert_eq!(a, Symbol::from_raw(1).unwrap());
    assert_eq!(table.resolve(a_copy), Some(&String::from("a")));
    assert_eq!(table.resolve(a), Some(&String::from("a")));
}

#[test]
fn first_value_gets_id_one() {
    let mut table: Interner<u64> = Interner::new();
    assert_eq!(table.intern_or_get(900).id(), 1);
    assert_eq!(table.len(), 1);
    assert_eq!(table.values(), &[900][..]);
}

#[test]
fn ids_rise_exactly_at_new_values() {
    let mut table: Interner<u64> = Interner::new();
    let ids = ids_of(&mut table, &[5, 5, 9, 9, 9, 2, 7, 7]);
    assert_eq!(ids, vec![1, 1, 2, 2, 2, 3, 4, 4]);
    assert_eq!(table.values(), &[5, 9, 2, 7][..]);
}

#[test]
fn earlier_value_comes_back_with_its_lower_id() {
    let mut table: Interner<u64> = Interner::new();
    let ids = ids_of(&mut table, &[5, 9, 5]);
    assert_eq!(ids, vec![1, 2, 1]);
}

#[test]
fn new_value_gets_the_highest_id() {
    let mut table: Interner<u64> = Interner::new();
    let ids = ids_of(&mut table, &[4, 8, 4, 8, 15, 4, 16]);
    assert_eq!(ids, vec![1, 2, 1, 2, 3, 1, 4]);
    assert_eq!(table.len(), 4);
}

#[test]
fn same_value_same_id_in_a_row() {
    let mut table: Interner<&'static str> = Interner::new();
    let first = table.intern_or_get("twice").id();
    let second = table.intern_or_get("twice").id();
    assert_eq!(first, 1);
    assert_eq!(second, 1);
    assert_eq!(table.len(), 1);
}

#[test]
fn same_value_same_id_with_others_between() {
    let mut table: Interner<String> = Interner::new();
    table.intern_or_get(String::from("zero"));
    let first = table.intern_or_get(String::from("kept")).id();
    table.intern_or_get(String::from("one"));
    table.intern_or_get(String::from("two"));
    table.intern_or_get(String::from("zero"));
    let second = table.intern_or_get(String::from("kept")).id();
    assert_eq!(first, 2);
    assert_eq!(second, 2);
    assert_eq!(table.len(), 4);
}

#[test]
fn different_values_get_different_ids() {
    let mut table: Interner<(u8, u8)> = Interner::new();
    let a = table.intern_or_get((1, 2)).id();
    let b = table.intern_or_get((2, 1)).id();
    let c = table.intern_or_get((1, 1)).id();
    assert_eq!((a, b, c), (1, 2, 3));
}

#[test]
fn equal_values_in_different_allocations_are_one_value() {
    let mut table: Interner<String> = Interner::new();
    let mut built = String::from("Hel");
    built.push_str("lo");
    let a = table.intern_or_get(String::from("Hello")).id();
    let b = table.intern_or_get(built).id();
    assert_eq!(a, b);
    assert_eq!(table.len(), 1);
}

#[test]
fn resolve_returns_what_was_interned() {
    let mut table: Interner<String> = Interner::new();
    for word in ["delta", "alpha", "charlie", "bravo", "alpha"] {
        let sym = table.intern_or_get(String::from(word));
        assert_eq!(table.resolve(sym), Some(&String::from(word)));
    }
}

#[test]
fn id_stays_valid_while_the_table_grows() {
    let mut table: Interner<u64> = Interner::new();
    let early = table.intern_or_get(42);
    for v in 100..200 {
        table.intern_or_get(v);
    }
    assert_eq!(early.id(), 1);
    assert_eq!(table.resolve(early), Some(&42));
    assert_eq!(table.intern_or_get(42).id(), 1);
    assert_eq!(table.len(), 101);
    assert_eq!(table.resolve(Symbol::from_raw(101).unwrap()), Some(&199));
}

#[test]
fn resolve_of_an_unknown_id_is_absent() {
    let mut table: Interner<u64> = Interner::new();
    table.intern_or_get(10);
    table.intern_or_get(20);
    assert_eq!(table.resolve(Symbol::from_raw(2).unwrap()), Some(&20));
    assert_eq!(table.resolve(Symbol::from_raw(3).unwrap()), None);
    assert_eq!(table.resolve(Symbol::from_raw(4).unwrap()), None);
    assert_eq!(table.resolve(Symbol::from_raw(u32::MAX).unwrap()), None);
}

#[test]
fn symbol_of_a_longer_table_is_absent_in_a_shorter_one() {
    let mut long: Interner<u64> = Interner::new();
    let mut short: Interner<u64> = Interner::new();
    long.intern_or_get(1);
    long.intern_or_get(2);
    let third = long.intern_or_get(3);
    short.intern_or_get(7);
    assert_eq!(short.resolve(third), None);
    assert_eq!(long.resolve(third), Some(&3));
}

#[test]
fn ids_are_dense_from_one() {
    let mut table: Interner<u64> = Interner::new();
    let values = [30, 10, 30, 20, 10, 50, 40, 50, 30];
    let mut ids = ids_of(&mut table, &values);
    ids.sort();
    ids.dedup();
    assert_eq!(ids, vec![1, 2, 3, 4, 5]);
    assert_eq!(table.len(), 5);
}

#[test]
fn get_finds_without_interning() {
    let mut table: Interner<&'static str> = Interner::new();
    table.intern_or_get("a");
    table.intern_or_get("b");
    assert_eq!(table.get(&"b").map(|s| s.id()), Some(2));
    assert_eq!(table.get(&"a").map(|s| s.id()), Some(1));
    assert_eq!(table.get(&"c"), None);
    assert_eq!(table.len(), 2);
    assert_eq!(table.values(), &["a", "b"][..]);
}

#[test]
fn values_come_in_order_of_first_interning() {
    let mut table: Interner<u64> = Interner::new();
    ids_of(&mut table, &[9, 3, 9, 7, 3, 1]);
    assert_eq!(table.values(), &[9, 3, 7, 1][..]);
    assert_eq!(table.len(), 4);
    assert_eq!(table.into_values(), vec![9, 3, 7, 1]);
}

#[test]
fn from_values_rebuilds_a_table() {
    let mut table: Interner<String> = Interner::new();
    for word in ["x", "y", "x", "z"] {
        table.intern_or_get(String::from(word));
    }
    let stored: Vec<String> = table.values().to_vec();
    let mut rebuilt = Interner::from_values(stored);
    assert_eq!(rebuilt, table);
    assert_eq!(rebuilt.values(), table.values());
    assert_eq!(rebuilt.resolve(Symbol::from_raw(3).unwrap()), Some(&String::from("z")));
    assert_eq!(rebuilt.intern_or_get(String::from("y")).id(), 2);
    assert_eq!(rebuilt.intern_or_get(String::from("w")).id(), 4);
}

#[test]
fn from_values_keeps_the_first_of_equal_values() {
    let table = Interner::from_values(vec![3u64, 1, 3, 2, 1]);
    assert_eq!(table.values(), &[3, 1, 2][..]);
    assert_eq!(table.len(), 3);
    assert_eq!(table.get(&2).map(|s| s.id()), Some(3));
}

#[test]
fn from_no_values_is_the_empty_table() {
    let table: Interner<u64> = Interner::from_values(Vec::new());
    assert_eq!(table, Interner::new());
    assert_eq!(table.len(), 0);
}

#[test]
fn tables_with_the_same_history_are_equal() {
    let mut a: Interner<u64> = Interner::new();
    let mut b: Interner<u64> = Interner::new();
    ids_of(&mut a, &[1, 2, 3]);
    ids_of(&mut b, &[1, 2, 2, 3, 1]);
    assert_eq!(a, b);
    b.intern_or_get(4);
    assert_ne!(a, b);
}

#[test]
fn many_values_keep_their_positions() {
    let mut table: Interner<u64> = Interner::new();
    for v in 0..1000u64 {
        assert_eq!(table.intern_or_get(v * 7 % 1000).id() as u64, v + 1);
    }
    for v in 0..1000u64 {
        let sym = table.get(&(v * 7 % 1000)).unwrap();
        assert_eq!(sym.id() as u64, v + 1);
        assert_eq!(table.resolve(sym), Some(&(v * 7 % 1000)));
    }
    assert_eq!(table.len(), 1000);
}
