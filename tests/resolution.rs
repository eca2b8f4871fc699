use album_creator::{
    contains_nul, conversion_arguments, get_max_length, join_path, pad_left, prepare_parameters,
    to_decimal, Album, Catalog, Image, NamedSet, ParameterSet, ResolveError, Transformation,
};

fn image(filename: &str, set: Option<&str>) -> Image {
    Image {
        filename: String::from(filename),
        transformations: set.map(String::from),
    }
}

fn album(base: &str, sets: Option<Vec<NamedSet>>, images: Vec<Image>) -> Album {
    Album {
        name: String::from("test name"),
        base: String::from(base),
        transformations: sets,
        images,
    }
}

fn builtin() -> Vec<Transformation> {
    vec![
        Transformation::Size {
            width: 1920,
            height: 1080,
        },
        Transformation::Normalize,
        Transformation::Enhance,
        Transformation::Unsharp { radius: 3 },
    ]
}

#[test]
fn get_max_length_1() {
    assert_eq!(get_max_length(5), 1);
    assert_eq!(get_max_length(14), 2);
    assert_eq!(get_max_length(3472), 4);
}

#[test]
fn prepare_parameters_1() {
    let trans = vec![NamedSet {
        name: String::from("default"),
        operations: vec![Transformation::Normalize, Transformation::Enhance],
    }];

    let album = Album {
        base: String::from("/temp_in/"),
        name: String::from("test name"),
        images: vec![Image {
            filename: String::from("image 1"),
            transformations: None,
        }],
        transformations: Some(trans),
    };

    let res = prepare_parameters(&album, "/tmp_out/").unwrap();

    assert_eq!(res.len(), 1);
    assert_eq!(res[0].transformations.len(), 2);
}

#[test]
fn prepare_parameters_paths_of_declared_default() {
    let trans = vec![NamedSet {
        name: String::from("default"),
        operations: vec![Transformation::Normalize, Transformation::Enhance],
    }];
    let a = album("/temp_in/", Some(trans), vec![image("image 1", None)]);
    let res = prepare_parameters(&a, "/tmp_out/").unwrap();
    assert_eq!(res[0].input, "/temp_in/image 1");
    assert_eq!(res[0].output, "/tmp_out/1_image 1");
    assert_eq!(
        res[0].transformations,
        vec![Transformation::Normalize, Transformation::Enhance]
    );
}

#[test]
fn to_decimal_values() {
    assert_eq!(to_decimal(0), "0");
    assert_eq!(to_decimal(7), "7");
    assert_eq!(to_decimal(10), "10");
    assert_eq!(to_decimal(3472), "3472");
    assert_eq!(to_decimal(usize::MAX), usize::MAX.to_string());
}

#[test]
fn get_max_length_edges() {
    assert_eq!(get_max_length(0), 1);
    assert_eq!(get_max_length(9), 1);
    assert_eq!(get_max_length(10), 2);
    assert_eq!(get_max_length(125), 3);
}

#[test]
fn pad_left_values() {
    assert_eq!(pad_left(String::from("5"), 2), "05");
    assert_eq!(pad_left(String::from("7"), 3), "007");
    assert_eq!(pad_left(String::from("125"), 3), "125");
    assert_eq!(pad_left(String::from("1234"), 2), "1234");
    assert_eq!(pad_left(String::new(), 2), "00");
}

#[test]
fn padded_position_width_and_value() {
    for total in [1usize, 9, 14, 100, 125, 3472] {
        let width = get_max_length(total);
        for position in 1..=total {
            let s = pad_left(to_decimal(position), width);
            assert_eq!(s.len(), width);
            assert_eq!(s.parse::<usize>().unwrap(), position);
        }
    }
    assert_eq!(pad_left(to_decimal(5), get_max_length(14)), "05");
}

#[test]
fn join_path_cases() {
    assert_eq!(join_path("/in", "a.jpg"), "/in/a.jpg");
    assert_eq!(join_path("/in/", "a.jpg"), "/in/a.jpg");
    assert_eq!(join_path("", "a.jpg"), "a.jpg");
    assert_eq!(join_path("/in", "/abs.jpg"), "/abs.jpg");
    assert_eq!(join_path("/in", ""), "/in/");
}

#[test]
fn contains_nul_cases() {
    assert!(!contains_nul("/in/a.jpg"));
    assert!(contains_nul("/in/a\0.jpg"));
    assert!(!contains_nul(""));
}

#[test]
fn image_to_string_is_filename() {
    assert_eq!(image("a.jpg", Some("bw")).to_string(), "a.jpg");
}

#[test]
fn catalog_adds_builtin_default() {
    let c = Catalog::new(&None);
    assert_eq!(c.resolve(&String::from("default")).unwrap(), builtin());
    assert_eq!(
        c.resolve(&String::from("bw")),
        Err(ResolveError::UnknownTransformationSet(String::from("bw")))
    );
}

#[test]
fn catalog_keeps_declared_default() {
    let declared = Some(vec![NamedSet {
        name: String::from("default"),
        operations: vec![Transformation::Enhance],
    }]);
    let c = Catalog::new(&declared);
    assert_eq!(
        c.resolve(&String::from("default")).unwrap(),
        vec![Transformation::Enhance]
    );
    assert_eq!(declared.unwrap().len(), 1);
}

#[test]
fn three_images_with_builtin_default() {
    let a = album(
        "/in",
        None,
        vec![image("a.jpg", None), image("b.jpg", None), image("c.jpg", None)],
    );
    let res = prepare_parameters(&a, "/out").unwrap();
    assert_eq!(res.len(), 3);
    assert_eq!(res[0].input, "/in/a.jpg");
    assert_eq!(res[0].output, "/out/1_a.jpg");
    assert_eq!(res[1].input, "/in/b.jpg");
    assert_eq!(res[1].output, "/out/2_b.jpg");
    assert_eq!(res[2].input, "/in/c.jpg");
    assert_eq!(res[2].output, "/out/3_c.jpg");
    for unit in &res {
        assert_eq!(unit.transformations, builtin());
    }
}

#[test]
fn seventh_of_125_has_three_digit_prefix() {
    let images = (1..=125).map(|i| image(&format!("img{}.jpg", i), None)).collect();
    let a = album("/in", None, images);
    let res = prepare_parameters(&a, "/out").unwrap();
    assert_eq!(res.len(), 125);
    assert_eq!(res[6].output, "/out/007_img7.jpg");
    assert!(res[6].output.starts_with("/out/007_"));
    assert_eq!(res[124].output, "/out/125_img125.jpg");
}

#[test]
fn missing_set_fails_with_its_name() {
    let sets = vec![NamedSet {
        name: String::from("bw"),
        operations: vec![Transformation::Normalize],
    }];
    let a = album("/in", Some(sets), vec![image("a.jpg", Some("missing"))]);
    let res = prepare_parameters(&a, "/out");
    assert_eq!(
        res,
        Err(ResolveError::UnknownTransformationSet(String::from("missing")))
    );
}

#[test]
fn missing_set_after_good_images_yields_no_units() {
    let a = album(
        "/in",
        None,
        vec![image("a.jpg", None), image("b.jpg", Some("nope")), image("c.jpg", None)],
    );
    let res = prepare_parameters(&a, "/out");
    assert_eq!(
        res,
        Err(ResolveError::UnknownTransformationSet(String::from("nope")))
    );
}

#[test]
fn named_sets_resolve_per_image() {
    let sets = vec![NamedSet {
        name: String::from("bw"),
        operations: vec![Transformation::Normalize],
    }];
    let a = album(
        "/in",
        Some(sets),
        vec![image("a.jpg", Some("bw")), image("b.jpg", None)],
    );
    let res = prepare_parameters(&a, "/out").unwrap();
    assert_eq!(res.len(), 2);
    assert_eq!(res[0].transformations, vec![Transformation::Normalize]);
    assert_eq!(res[1].transformations, builtin());
}

#[test]
fn same_filename_gets_distinct_outputs() {
    let a = album(
        "/in",
        None,
        vec![image("x.jpg", None), image("x.jpg", None)],
    );
    let res = prepare_parameters(&a, "/out/").unwrap();
    assert_eq!(res[0].input, res[1].input);
    assert_eq!(res[0].output, "/out/1_x.jpg");
    assert_eq!(res[1].output, "/out/2_x.jpg");
    assert_ne!(res[0].output, res[1].output);
}

#[test]
fn empty_album_resolves_to_nothing() {
    let a = album("/in", None, vec![]);
    assert_eq!(prepare_parameters(&a, "/out").unwrap(), vec![]);
}

#[test]
fn nul_in_input_path_is_rejected() {
    let a = album("/in", None, vec![image("a\0.jpg", None)]);
    assert_eq!(
        prepare_parameters(&a, "/out"),
        Err(ResolveError::PathEncodingError(String::from("/in/a\0.jpg")))
    );
}

#[test]
fn nul_in_output_root_is_rejected() {
    let a = album("/in", None, vec![image("a.jpg", None)]);
    assert_eq!(
        prepare_parameters(&a, "/o\0ut"),
        Err(ResolveError::PathEncodingError(String::from("/o\0ut/1_a.jpg")))
    );
}

#[test]
fn pad_left_counts_bytes() {
    assert_eq!(pad_left(String::from("\u{e9}"), 2), "\u{e9}");
    assert_eq!(pad_left(String::from("\u{e9}"), 3), "0\u{e9}");
    assert_eq!(pad_left(String::from("ab"), 4), "00ab");
}

#[test]
fn catalog_duplicate_name_first_wins() {
    let declared = Some(vec![
        NamedSet {
            name: String::from("bw"),
            operations: vec![Transformation::Normalize],
        },
        NamedSet {
            name: String::from("bw"),
            operations: vec![Transformation::Enhance],
        },
    ]);
    let c = Catalog::new(&declared);
    assert_eq!(
        c.resolve(&String::from("bw")).unwrap(),
        vec![Transformation::Normalize]
    );
}

#[test]
fn conversion_arguments_of_builtin_default() {
    let a = album("/in", None, vec![image("a.jpg", None)]);
    let res = prepare_parameters(&a, "/out").unwrap();
    assert_eq!(
        conversion_arguments(&res[0]),
        vec![
            "convert",
            "-size",
            "1920x1080",
            "-normalize",
            "-enhance",
            "-unsharp",
            "3",
            "/in/a.jpg",
            "/out/1_a.jpg",
        ]
    );
}

#[test]
fn conversion_arguments_without_operations() {
    let unit = ParameterSet {
        input: String::from("i"),
        output: String::from("o"),
        transformations: vec![],
    };
    assert_eq!(conversion_arguments(&unit), vec!["convert", "i", "o"]);
}
