use scene_switch::segment::{ends_in_segment_extension, get_segment_num, segment_num_of_chars};
use scene_switch::text::chars_of;

#[test]
fn segment_number_with_leading_zeros() {
    assert_eq!(get_segment_num("video/seg_007.ts"), Some(7));
}

#[test]
fn segment_without_digits_is_absent() {
    assert_eq!(get_segment_num("video/seg.ts"), None);
}

#[test]
fn segment_number_of_a_request_path() {
    assert_eq!(get_segment_num("/videos/show_5.ts"), Some(5));
    assert_eq!(get_segment_num("/videos/season_2/show_42.ts"), Some(42));
}

#[test]
fn only_the_last_digit_run_counts() {
    assert_eq!(get_segment_num("/v/show_12_34.ts"), Some(34));
    assert_eq!(get_segment_num("/v/12_show_9.ts"), Some(9));
    assert_eq!(get_segment_num("/v_1/2_3/x_4.ts"), Some(4));
}

#[test]
fn digits_need_an_underscore_before_them() {
    assert_eq!(get_segment_num("/v/show12.ts"), None);
    assert_eq!(get_segment_num("/v/show_x12.ts"), None);
    assert_eq!(get_segment_num("/v/show-12.ts"), None);
    assert_eq!(get_segment_num("/v/12.ts"), None);
}

#[test]
fn underscore_without_digits_is_no_zero() {
    assert_eq!(get_segment_num("/v/show_.ts"), None);
    assert_eq!(get_segment_num("/v/show_0.ts"), Some(0));
}

#[test]
fn a_slash_must_precede_the_underscore() {
    assert_eq!(get_segment_num("show_5.ts"), None);
    assert_eq!(get_segment_num("show_5/.ts"), None);
    assert_eq!(get_segment_num("show_5/x.ts"), None);
    assert_eq!(get_segment_num("/_5.ts"), Some(5));
    assert_eq!(get_segment_num("a/b_5.ts"), Some(5));
}

#[test]
fn the_stem_may_hold_slashes_and_underscores() {
    assert_eq!(get_segment_num("/a/b/c_d/e_f_6.ts"), Some(6));
    assert_eq!(get_segment_num("//__7.ts"), Some(7));
}

#[test]
fn the_extension_must_end_the_path() {
    assert_eq!(get_segment_num("/v/show_5.ts "), None);
    assert_eq!(get_segment_num("/v/show_5.tsx"), None);
    assert_eq!(get_segment_num("/v/show_5.TS"), None);
    assert_eq!(get_segment_num("/v/show_5ts"), None);
    assert_eq!(get_segment_num("/v/show_5.ts?x=1"), None);
    assert_eq!(get_segment_num("/v/show_5.ts.ts"), None);
}

#[test]
fn short_and_empty_paths_are_absent() {
    assert_eq!(get_segment_num(""), None);
    assert_eq!(get_segment_num(".ts"), None);
    assert_eq!(get_segment_num("/"), None);
    assert_eq!(get_segment_num("_1.ts"), None);
    assert_eq!(get_segment_num("/1.ts"), None);
}

#[test]
fn a_line_break_anywhere_is_no_match() {
    assert_eq!(get_segment_num("/v\n/show_5.ts"), None);
    assert_eq!(get_segment_num("\n/v/show_5.ts"), None);
    assert_eq!(get_segment_num("/v/sh\now_5.ts"), None);
    assert_eq!(get_segment_num("/v/show_5.ts\n"), None);
    assert_eq!(get_segment_num("/v/sh\row_5.ts"), Some(5));
}

#[test]
fn largest_segment_number() {
    assert_eq!(get_segment_num("/v/show_4294967295.ts"), Some(4294967295));
    assert_eq!(get_segment_num("/v/show_0004294967295.ts"), Some(4294967295));
}

#[test]
fn number_beyond_u32_is_absent() {
    assert_eq!(get_segment_num("/v/show_4294967296.ts"), None);
    assert_eq!(get_segment_num("/v/show_99999999999999999999999.ts"), None);
}

#[test]
fn characters_beyond_ascii_pass_in_directory_and_stem() {
    assert_eq!(get_segment_num("/vidéo/épisode_12.ts"), Some(12));
    assert_eq!(get_segment_num("/日本/番組_3.ts"), Some(3));
}

#[test]
fn digits_beyond_ascii_are_no_digits() {
    assert_eq!(get_segment_num("/v/show_٣.ts"), None);
    assert_eq!(get_segment_num("/v/show_٣5.ts"), None);
    assert_eq!(get_segment_num("/v/show_5٣.ts"), None);
    assert_eq!(get_segment_num("/v/show_１２.ts"), None);
}

#[test]
fn extraction_is_repeatable() {
    let path = String::from("/videos/show_17.ts");
    assert_eq!(get_segment_num(&path), get_segment_num(&path));
    assert_eq!(get_segment_num(&path), Some(17));
}

fn pattern_engine_number(re: &regex::Regex, path: &str) -> Option<u32> {
    match re.captures(path) {
        Some(found) => match found.name("seg_num") {
            Some(digits) => digits.as_str().parse::<u32>().ok(),
            None => None,
        },
        None => None,
    }
}

#[test]
fn agrees_with_the_pattern_engine_on_chosen_paths() {
    let re = regex::Regex::new(r"^.*/.*_(?P<seg_num>\d+)\.ts$").unwrap();
    let paths = [
        "",
        ".ts",
        "/_1.ts",
        "video/seg_007.ts",
        "video/seg.ts",
        "/videos/show_5.ts",
        "/v/show_12_34.ts",
        "/v/show12.ts",
        "show_5.ts",
        "show_5/x.ts",
        "/v/show_5.ts\n",
        "/v\n/show_5.ts",
        "/v/sh\row_5.ts",
        "/v/show_4294967295.ts",
        "/v/show_4294967296.ts",
        "/v/show_٣.ts",
        "/v/show_5٣.ts",
        "/vidéo/épisode_12.ts",
        "/a/b/c_d/e_f_6.ts",
        "/v/show_5.TS",
        "/v/show_+5.ts",
        "/v/show_-5.ts",
        "/v/show_ 5.ts",
        "/v/_/_/_0.ts",
    ];
    for path in paths.iter() {
        assert_eq!(get_segment_num(path), pattern_engine_number(&re, path), "path {:?}", path);
    }
}

#[test]
fn agrees_with_the_pattern_engine_on_every_short_path() {
    let re = regex::Regex::new(r"^.*/.*_(?P<seg_num>\d+)\.ts$").unwrap();
    let alphabet = ['/', '_', '7', '.', 't', 's', '\n', 'a'];
    let mut paths: Vec<String> = vec![String::new()];
    let mut from = 0;
    for _ in 0..6 {
        let upto = paths.len();
        for i in from..upto {
            for c in alphabet.iter() {
                let mut longer = paths[i].clone();
                longer.push(*c);
                paths.push(longer);
            }
        }
        from = upto;
    }
    assert_eq!(paths.len(), 299593);
    let mut matches = 0;
    for path in paths.iter() {
        let ours = get_segment_num(path);
        assert_eq!(ours, pattern_engine_number(&re, path), "path {:?}", path);
        if ours.is_some() {
            matches += 1;
        }
    }
    assert_eq!(matches, 1);
}

#[test]
fn agrees_with_the_pattern_engine_on_every_short_file_name() {
    let re = regex::Regex::new(r"^.*/.*_(?P<seg_num>\d+)\.ts$").unwrap();
    let alphabet = ['/', '_', '0', '9', 'x'];
    let mut names: Vec<String> = vec![String::new()];
    let mut from = 0;
    for _ in 0..7 {
        let upto = names.len();
        for i in from..upto {
            for c in alphabet.iter() {
                let mut longer = names[i].clone();
                longer.push(*c);
                names.push(longer);
            }
        }
        from = upto;
    }
    let mut matches = 0;
    for name in names.iter() {
        let mut path = name.clone();
        path.push_str(".ts");
        let ours = get_segment_num(&path);
        assert_eq!(ours, pattern_engine_number(&re, &path), "path {:?}", path);
        if ours.is_some() {
            matches += 1;
        }
    }
    assert!(matches > 1000);
}

#[test]
fn extension_check_on_characters() {
    assert!(ends_in_segment_extension(&chars_of(".ts")));
    assert!(ends_in_segment_extension(&chars_of("/v/show_5.ts")));
    assert!(ends_in_segment_extension(&chars_of("/v/é.ts")));
    assert!(!ends_in_segment_extension(&chars_of("")));
    assert!(!ends_in_segment_extension(&chars_of("ts")));
    assert!(!ends_in_segment_extension(&chars_of("/v/show_5.tS")));
    assert!(!ends_in_segment_extension(&chars_of("/v/show_5.ts/")));
}

#[test]
fn segment_number_from_characters() {
    assert_eq!(segment_num_of_chars(&chars_of("video/seg_007.ts")), Some(7));
    assert_eq!(segment_num_of_chars(&chars_of("video/seg.ts")), None);
    assert_eq!(segment_num_of_chars(&Vec::new()), None);
}
