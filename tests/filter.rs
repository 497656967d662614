use vortex_core::bool_array::{BoolArray, Operator};
use vortex_core::filter::{filter_indices, Conjunction, Disjunction, Predicate};
use vortex_core::validity::Validity;

fn count_set(a: &BoolArray) -> usize {
    a.boolean_buffer().count_set_bits()
}

fn selected(a: &BoolArray) -> Vec<usize> {
    a.boolean_buffer().iter().enumerate().filter(|(_, b)| *b).map(|(i, _)| i).collect()
}

#[test]
fn filter_indices_half_of_uniform_values() {
    let mut state: u64 = 0x9E37_79B9_7F4A_7C15;
    let values: Vec<i64> = (0..10_000_000)
        .map(|_| {
            state ^= state << 13;
            state ^= state >> 7;
            state ^= state << 17;
            (state % 100_000_000) as i64
        })
        .collect();
    let predicate = Disjunction {
        conjunctions: vec![Conjunction {
            predicates: vec![Predicate { op: Operator::LessThan, literal: 50_000_000 }],
        }],
    };
    let r = filter_indices(&values, &Validity::NonNullable, &predicate);
    assert_eq!(r.len(), values.len());
    let n = count_set(&r);
    assert!(n > 4_950_000 && n < 5_050_000, "{}", n);
}

#[test]
fn filter_indices_dnf_and_nulls() {
    let values = vec![1i64, 5, 7, 10, 12];
    // (x > 4 and x < 8) or x == 12
    let predicate = Disjunction {
        conjunctions: vec![
            Conjunction {
                predicates: vec![
                    Predicate { op: Operator::GreaterThan, literal: 4 },
                    Predicate { op: Operator::LessThan, literal: 8 },
                ],
            },
            Conjunction { predicates: vec![Predicate { op: Operator::EqualTo, literal: 12 }] },
        ],
    };
    let r = filter_indices(&values, &Validity::AllValid, &predicate);
    assert_eq!(selected(&r), vec![1, 2, 4]);
    let nulls = Validity::Array(BoolArray::from_vec(
        vec![true, false, true, true, true],
        Validity::NonNullable,
    ));
    let r = filter_indices(&values, &nulls, &predicate);
    assert_eq!(selected(&r), vec![2, 4]);
    let none = Disjunction { conjunctions: vec![] };
    assert_eq!(count_set(&filter_indices(&values, &Validity::AllValid, &none)), 0);
    let always = Disjunction { conjunctions: vec![Conjunction { predicates: vec![] }] };
    assert_eq!(count_set(&filter_indices(&values, &Validity::AllInvalid, &always)), 0);
}
