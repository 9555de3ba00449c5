use concurrency_lib::random::{
    gen_password_from, gen_password_from_custom_chars, generate_rand_num_range,
    generate_rand_password_from_chars, password_from_chars, password_from_indices, throws_from,
    CHARSET, PASSWORD_LEN,
};

#[test]
fn custom_password_is_made_of_the_charset() {
    assert_eq!(PASSWORD_LEN, 30);
    assert_eq!(CHARSET.len(), 73);
    for _ in 0..50 {
        let password = gen_password_from_custom_chars();
        assert_eq!(password.chars().count(), 30);
        assert!(password.chars().all(|c| CHARSET.contains(c)));
    }
}

#[test]
fn alphanumeric_password_is_letters_and_digits() {
    for _ in 0..50 {
        let password = generate_rand_password_from_chars();
        assert_eq!(password.len(), 30);
        assert!(password.chars().all(|c| c.is_ascii_alphanumeric()));
    }
}

#[test]
fn password_from_one_character() {
    assert_eq!(gen_password_from("x", 5), "xxxxx");
    assert_eq!(gen_password_from("é", 3), "ééé");
    assert_eq!(gen_password_from("abc", 0), "");
}

#[test]
fn passwords_differ() {
    let first = gen_password_from_custom_chars();
    let differs = (0..20).any(|_| gen_password_from_custom_chars() != first);
    assert!(differs);
}

#[test]
fn die_is_thrown_until_nine() {
    let mut seen = [false; 10];
    for _ in 0..200 {
        let throws = generate_rand_num_range();
        assert_eq!(throws.last(), Some(&9));
        assert!(throws.iter().all(|t| (1..10).contains(t)));
        assert_eq!(throws.iter().filter(|t| **t == 9).count(), 1);
        for t in throws {
            seen[t as usize] = true;
        }
    }
    assert_eq!(seen, [false, true, true, true, true, true, true, true, true, true]);
}

#[test]
fn password_is_made_from_the_places_chosen() {
    assert_eq!(password_from_indices("abc", &vec![2, 0, 0, 1]), "caab");
    assert_eq!(password_from_indices("aé~", &vec![1, 2, 1]), "é~é");
    assert_eq!(password_from_indices("abc", &vec![]), "");
    assert_eq!(password_from_indices(CHARSET, &vec![0, 25, 26, 51, 52, 61, 62, 72]), "AZaz09)~");
}

#[test]
fn password_is_made_of_the_characters_given() {
    assert_eq!(password_from_chars(&vec!['x', 'é', '9']), "xé9");
    assert_eq!(password_from_chars(&vec![]), "");
}

#[test]
fn throws_end_with_the_first_nine() {
    assert_eq!(throws_from(&vec![3, 1, 9, 4, 9]), vec![3, 1, 9]);
    assert_eq!(throws_from(&vec![9, 9]), vec![9]);
    assert_eq!(throws_from(&vec![9]), vec![9]);
    assert_eq!(throws_from(&vec![1, 2, 3]), vec![1, 2, 3]);
    assert_eq!(throws_from(&vec![]), Vec::<i32>::new());
    assert_eq!(throws_from(&vec![8, 8, 9]), vec![8, 8, 9]);
}
