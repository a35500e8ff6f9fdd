use excopr::{
    Config, Configuration, ElementConverter, EnvFeeder, Field, FieldContainer, Group, Matches, Named,
    Node, Values,
};

#[test]
fn configuration_impl_test() {
    let mut builder = Configuration::builder::<EnvFeeder>();
    let root = Config::new("root");
    let element = Field::new("Fld");
    let subconfig = Config::new("sub").add_field(element).unwrap();
    let group = Group::new("Grp", vec![0]);
    let subconfig = subconfig.add_group(group).unwrap();
    let root = root.add_config(subconfig).unwrap();
    builder = builder.set_root(root);
    let configuration = builder.build().unwrap();
    let conf = &configuration.root;
    let subconf = conf.elements()[0].as_config().unwrap();
    assert_eq!(subconf.name(), "sub");
    let group = &subconf.groups()[0];
    assert_eq!(group.name(), "Grp");
}

#[test]
fn configuration_adding_feeders() {
    let mut builder = Configuration::builder();
    builder.add_feeder(EnvFeeder::new("test", vec![])).unwrap();
    assert!(builder.add_feeder(EnvFeeder::new("test", vec![])).is_err());
}

#[test]
fn configuration_empty_builder() {
    assert!(Configuration::builder::<EnvFeeder>().build().is_err())
}

#[test]
fn configuration_values() {
    let mut builder = Configuration::builder();
    let mut element = Field::new("second");
    let mut root = Config::new("first");

    let map = vec![
        ("feeder_id_1".to_string(), "11111".to_string()),
        ("feeder_id_2".to_string(), "22222".to_string()),
    ];

    let mut feeder = EnvFeeder::new("testing_feeder", map);

    root.add_feeder_matches(
        "testing_feeder",
        Matches::new(vec![feeder.add_match("feeder_id_1")]),
    )
    .unwrap();

    element
        .add_feeder_matches(
            "testing_feeder",
            Matches::new(vec![feeder.add_match("feeder_id_2")]),
        )
        .unwrap();
    let root = root.add_field(element).unwrap();

    builder.add_feeder(feeder).unwrap();
    let res = builder.set_root(root).build().unwrap();

    let cfg = &res.root;
    assert_eq!(cfg.values()[0].feeder(), "testing_feeder");
    assert_eq!(cfg.values()[0].value::<u32>().unwrap(), 11111);

    let fld = cfg.elements()[0].as_field().unwrap();
    assert_eq!(fld.values()[0].feeder(), "testing_feeder");
    assert_eq!(fld.values()[0].value::<u16>().unwrap(), 22222);
    assert!(fld.values()[0].value::<u8>().is_err());
}
