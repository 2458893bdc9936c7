use cons_list::List;

fn chain(values: &[i32]) -> List {
    let mut list = List::Empty;
    for value in values.iter().rev() {
        list = List::Element(*value, Box::new(list));
    }
    list
}

#[test]
fn empty_renders_as_the_bare_word() {
    assert_eq!(List::Empty.render(), "Empty");
}

#[test]
fn two_elements_render_outermost_first() {
    let list = List::Element(1, Box::new(List::Element(2, Box::new(List::Empty))));
    assert_eq!(list.render(), "Element(1, Element(2, Empty))");
}

#[test]
fn single_element_wraps_the_empty_word() {
    let list = List::Element(7, Box::new(List::Empty));
    assert_eq!(list.render(), "Element(7, Empty)");
}

#[test]
fn rendering_twice_gives_the_same_bytes() {
    let list = chain(&[1, 2]);
    let first = list.render();
    let second = list.render();
    assert_eq!(first.as_bytes(), second.as_bytes());
    assert_eq!(chain(&[1, 2]).render(), first);
}

#[test]
fn order_of_values_is_kept() {
    assert_eq!(chain(&[2, 1]).render(), "Element(2, Element(1, Empty))");
    assert_ne!(chain(&[2, 1]).render(), chain(&[1, 2]).render());
}

#[test]
fn negative_values_carry_a_minus_sign() {
    assert_eq!(chain(&[-5]).render(), "Element(-5, Empty)");
    assert_eq!(chain(&[-1, 1]).render(), "Element(-1, Element(1, Empty))");
}

#[test]
fn zero_is_a_single_digit() {
    assert_eq!(chain(&[0]).render(), "Element(0, Empty)");
}

#[test]
fn extreme_values_render_in_full() {
    assert_eq!(chain(&[i32::MAX]).render(), "Element(2147483647, Empty)");
    assert_eq!(chain(&[i32::MIN]).render(), "Element(-2147483648, Empty)");
}

#[test]
fn multi_digit_values_keep_inner_zeros() {
    assert_eq!(
        chain(&[10, 100, 1002003]).render(),
        "Element(10, Element(100, Element(1002003, Empty)))"
    );
}

#[test]
fn closing_brackets_match_the_number_of_elements() {
    let text = chain(&[3, 1, 4, 1, 5]).render();
    assert_eq!(text, "Element(3, Element(1, Element(4, Element(1, Element(5, Empty)))))");
    assert_eq!(text.matches("Element(").count(), 5);
    assert_eq!(text.matches(')').count(), 5);
}

#[test]
fn render_agrees_with_the_derived_debug_form() {
    let samples: Vec<Vec<i32>> = vec![
        vec![],
        vec![1, 2],
        vec![0],
        vec![-1],
        vec![i32::MIN, i32::MAX, 0],
        vec![9, 10, 11, 99, 100, 101, -9, -10, -11],
    ];
    for values in samples.iter() {
        let list = chain(values);
        assert_eq!(list.render(), format!("{:?}", list));
    }
}

#[test]
fn a_long_chain_renders_like_its_debug_form() {
    let values: Vec<i32> = (0..500).map(|i| i * 7919 - 1_000_000).collect();
    let list = chain(&values);
    assert_eq!(list.render(), format!("{:?}", list));
}

#[test]
fn different_lists_have_different_texts() {
    let samples: Vec<Vec<i32>> = vec![
        vec![],
        vec![0],
        vec![1],
        vec![-1],
        vec![12],
        vec![1, 2],
        vec![2, 1],
        vec![1, 2, 0],
        vec![0, 0],
    ];
    for (i, left) in samples.iter().enumerate() {
        for (j, right) in samples.iter().enumerate() {
            let same_text = chain(left).render() == chain(right).render();
            assert_eq!(same_text, i == j);
        }
    }
}

#[test]
fn element_text_wraps_the_text_of_its_tail() {
    let list = chain(&[-40, 5, 600]);
    match &list {
        List::Element(value, tail) => {
            assert_eq!(*value, -40);
            assert_eq!(tail.render(), "Element(5, Element(600, Empty))");
            assert_eq!(list.render(), format!("Element({}, {})", value, tail.render()));
            assert!(tail.render().len() < list.render().len());
        }
        List::Empty => panic!("a chain of three values is an element"),
    }
}

#[test]
fn value_reads_back_from_the_text() {
    for value in [0i32, 5, -5, 10, -10, 123_456, i32::MAX, i32::MIN] {
        let text = chain(&[value]).render();
        let inner = &text["Element(".len()..text.len() - ", Empty)".len()];
        assert_eq!(inner.parse::<i32>(), Ok(value));
    }
}

#[test]
fn every_digit_renders_as_itself() {
    let digits = ["0", "1", "2", "3", "4", "5", "6", "7", "8", "9"];
    for (value, digit) in digits.iter().enumerate() {
        assert_eq!(chain(&[value as i32]).render(), format!("Element({}, Empty)", digit));
    }
}

#[test]
fn powers_of_ten_keep_their_zeros() {
    assert_eq!(chain(&[10]).render(), "Element(10, Empty)");
    assert_eq!(chain(&[1_000_000_000]).render(), "Element(1000000000, Empty)");
    assert_eq!(chain(&[-1_000]).render(), "Element(-1000, Empty)");
}

#[test]
fn equal_lists_built_apart_have_equal_text() {
    let first = List::Element(1, Box::new(List::Element(2, Box::new(List::Empty))));
    let padding: Vec<Box<u64>> = (0..64).map(Box::new).collect();
    let second = List::Element(1, Box::new(List::Element(2, Box::new(List::Empty))));
    assert_eq!(padding.len(), 64);
    for _ in 0..3 {
        assert_eq!(first.render().as_bytes(), second.render().as_bytes());
    }
}
