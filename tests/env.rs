use excopr::{
    Config, Configuration, ElementConverter, EnvFeeder, Field, FieldContainer, Matches, Node, Values,
};

#[test]
fn env_feeder_test() {
    let vars = vec![
        ("TEST1".to_string(), "test1".to_string()),
        ("TEST2".to_string(), "test2".to_string()),
        ("TEST3".to_string(), "test3".to_string()),
    ];

    let mut feeder = EnvFeeder::new("env_test", vars);

    let mut builder = Configuration::builder();
    let mut element = Field::new("second");
    let mut root = Config::new("first");

    root.add_feeder_matches(
        "env_test",
        Matches::new(vec![feeder.add_match("TEST2")]),
    )
    .unwrap();

    element
        .add_feeder_matches(
            "env_test",
            Matches::new(vec![
                feeder.add_match("TEST3"),
                feeder.add_match("TEST1"),
                feeder.add_match("TEST4"),
            ]),
        )
        .unwrap();
    let root = root.add_field(element).unwrap();

    builder.add_feeder(feeder).unwrap();
    let res = builder.set_root(root).build().unwrap();

    let cfg = &res.root;
    assert_eq!(cfg.values()[0].feeder(), "env_test");
    assert_eq!(
        cfg.values()[0].value::<String>().unwrap(),
        "test2".to_string()
    );

    let fld = cfg.elements()[0].as_field().unwrap();
    assert_eq!(fld.values().len(), 2);
    assert_eq!(fld.values()[0].feeder(), "env_test");
    assert_eq!(fld.values()[0].value::<String>().unwrap(), "test3");
    assert_eq!(fld.values()[1].feeder(), "env_test");
    assert_eq!(fld.values()[1].value::<String>().unwrap(), "test1");
}
