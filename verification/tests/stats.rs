use solar_sema::stats::{fields_layout_size, to_readable_str, NodeStats, TypeLayout};

#[test]
fn readable_numbers_group_digits_by_three() {
    assert_eq!(to_readable_str(0), "0");
    assert_eq!(to_readable_str(7), "7");
    assert_eq!(to_readable_str(999), "999");
    assert_eq!(to_readable_str(1000), "1_000");
    assert_eq!(to_readable_str(1_234_567), "1_234_567");
    assert_eq!(to_readable_str(10_000_001), "10_000_001");
    assert_eq!(to_readable_str(1_050), "1_050");
}

#[test]
fn variant_payloads_are_padded_records() {
    let this = TypeLayout { size: 16, align: 8 };
    let fields = [TypeLayout { size: 1, align: 1 }, TypeLayout { size: 4, align: 4 }, TypeLayout { size: 1, align: 1 }];
    assert_eq!(fields_layout_size(this, &fields), 16);
    assert_eq!(fields_layout_size(TypeLayout { size: 0, align: 4 }, &[]), 0);
    let wide = [TypeLayout { size: 2, align: 2 }, TypeLayout { size: 8, align: 8 }];
    assert_eq!(fields_layout_size(TypeLayout { size: 24, align: 1 }, &wide), 16);
}

#[test]
fn node_stats_accumulate_sizes() {
    let mut stats = NodeStats::new();
    assert_eq!(stats.accum_size(), 0);
    stats.count = 3;
    stats.size = 40;
    assert_eq!(stats.accum_size(), 120);
}

#[test]
fn readable_text_parses_back_in_groups_of_three() {
    for value in [0usize, 7, 999, 1000, 1234567, 1000001, usize::MAX] {
        let text = to_readable_str(value);
        assert_eq!(text.replace('_', "").parse::<usize>(), Ok(value));
        let groups: Vec<&str> = text.split('_').collect();
        assert!((1..=3).contains(&groups[0].len()));
        assert!(value == 0 || !groups[0].starts_with('0'));
        assert!(groups[1..].iter().all(|group| group.len() == 3));
    }
}
