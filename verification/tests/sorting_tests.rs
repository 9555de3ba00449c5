use concurrency_lib::sorting::{
    bytes_in_order, sort_by, sort_integer_vector, sort_integers, sort_struct_vector, Ascending,
    ByAgeDescending, ByNameThenAge, Person,
};

#[test]
fn integer_sample_is_sorted() {
    assert_eq!(sort_integer_vector(), vec![1, 2, 5, 10, 15]);
}

#[test]
fn integers_with_repeats_and_negatives() {
    let mut v = vec![3, -1, 3, 0, i32::MIN, i32::MAX, -1];
    sort_integers(&mut v);
    assert_eq!(v, vec![i32::MIN, -1, -1, 0, 3, 3, i32::MAX]);
    let mut empty: Vec<i32> = Vec::new();
    sort_by::<i32, Ascending>(&mut empty);
    assert!(empty.is_empty());
}

#[test]
fn people_sample_ends_oldest_first() {
    assert_eq!(
        sort_struct_vector(),
        vec![
            Person::new("Al".to_string(), 60),
            Person::new("Zoe".to_string(), 25),
            Person::new("John".to_string(), 1),
        ]
    );
}

#[test]
fn people_by_name_then_age() {
    let mut people = vec![
        Person::new("Zoe".to_string(), 25),
        Person::new("Al".to_string(), 60),
        Person::new("John".to_string(), 1),
        Person::new("Al".to_string(), 7),
    ];
    let mut expected = people.clone();
    expected.sort();
    sort_by::<Person, ByNameThenAge>(&mut people);
    assert_eq!(people, expected);
    assert_eq!(people[0], Person::new("Al".to_string(), 7));
    sort_by::<Person, ByAgeDescending>(&mut people);
    assert_eq!(people[0].age, 60);
    assert_eq!(people[3].age, 1);
}

#[test]
fn byte_order_is_dictionary_order() {
    assert!(bytes_in_order(b"", b"a"));
    assert!(bytes_in_order(b"Al", b"Al"));
    assert!(bytes_in_order(b"Al", b"Ali"));
    assert!(!bytes_in_order(b"Ali", b"Al"));
    assert!(bytes_in_order(b"John", b"Zoe"));
    assert!(!bytes_in_order(b"b", b"abc"));
    assert_eq!(bytes_in_order("é".as_bytes(), "z".as_bytes()), "é" <= "z");
}

#[test]
fn new_person_keeps_fields() {
    let p = Person::new("Al".to_string(), 60);
    assert_eq!(p.name, "Al");
    assert_eq!(p.age, 60);
}

#[test]
fn equal_elements_keep_their_order() {
    let mut people = vec![
        Person::new("Zoe".to_string(), 30),
        Person::new("Al".to_string(), 60),
        Person::new("John".to_string(), 30),
        Person::new("Bea".to_string(), 60),
        Person::new("Cy".to_string(), 30),
    ];
    sort_by::<Person, ByAgeDescending>(&mut people);
    let names: Vec<&str> = people.iter().map(|p| p.name.as_str()).collect();
    assert_eq!(names, vec!["Al", "Bea", "Zoe", "John", "Cy"]);
    let mut expected = vec![
        Person::new("Zoe".to_string(), 30),
        Person::new("Al".to_string(), 60),
        Person::new("John".to_string(), 30),
        Person::new("Bea".to_string(), 60),
        Person::new("Cy".to_string(), 30),
    ];
    expected.sort_by(|a, b| b.age.cmp(&a.age));
    assert_eq!(people, expected);
}
