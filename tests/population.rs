use excopr::error::{Error, SetupError};
use excopr::{
    Config, Configuration, Description, ElementConverter, EnvFeeder, Field, FieldContainer, Group,
    Matches, Members, MissingPolicy, Node, Values,
};

fn vars(pairs: &[(&str, &str)]) -> Vec<(String, String)> {
    pairs.iter().map(|(k, v)| (k.to_string(), v.to_string())).collect()
}

fn pairs(values: &[excopr::Value]) -> Vec<(String, String)> {
    values.iter().map(|v| (v.feeder().to_string(), v.raw().to_string())).collect()
}

#[test]
fn skipped_matches_keep_order_of_hits() {
    let mut feeder = EnvFeeder::new("F", vars(&[("k1", "a"), ("k3", "c")]));
    let mut field = Field::new("node");
    field
        .add_feeder_matches(
            "F",
            Matches::new(vec![feeder.add_match("k1"), feeder.add_match("k2"), feeder.add_match("k3")]),
        )
        .unwrap();
    let root = Config::new("root").add_field(field).unwrap();
    let mut builder = Configuration::builder();
    builder.add_feeder(feeder).unwrap();
    let conf = builder.set_root(root).build().unwrap();
    let fld = conf.root.elements()[0].as_field().unwrap();
    assert_eq!(
        pairs(&fld.values()),
        vec![("F".to_string(), "a".to_string()), ("F".to_string(), "c".to_string())]
    );
}

#[test]
fn build_without_root_is_a_setup_error() {
    let mut builder = Configuration::builder();
    builder.add_feeder(EnvFeeder::new("F", vec![])).unwrap();
    assert!(matches!(builder.build(), Err(Error::Setup(SetupError::NoRoot))));
}

#[test]
fn second_binding_under_same_name_is_refused() {
    let mut feeder = EnvFeeder::new("F", vars(&[("a", "1"), ("b", "2")]));
    let mut root = Config::new("root");
    root.add_feeder_matches("F", Matches::new(vec![feeder.add_match("a")])).unwrap();
    let second = root.add_feeder_matches("F", Matches::new(vec![feeder.add_match("b")]));
    match second {
        Err(SetupError::DuplicateFeederBinding(name)) => assert_eq!(name, "F"),
        _ => panic!("second binding accepted"),
    }
    let kept = root.node().get_feeder_matches("F").unwrap();
    assert_eq!(kept.len(), 1);
    assert_eq!(kept.get(0).repr(), "a");
    assert_eq!(root.node().all_feeder_matches().len(), 1);

    let mut builder = Configuration::builder();
    builder.add_feeder(feeder).unwrap();
    let conf = builder.set_root(root).build().unwrap();
    assert_eq!(pairs(&conf.root.values()), vec![("F".to_string(), "1".to_string())]);
}

#[test]
fn second_feeder_with_same_name_is_refused_and_first_kept() {
    let mut builder = Configuration::builder();
    let mut first = EnvFeeder::new("F", vars(&[("a", "first")]));
    let second = EnvFeeder::new("F", vars(&[("a", "second")]));
    let mut root = Config::new("root");
    root.add_feeder_matches("F", Matches::new(vec![first.add_match("a")])).unwrap();
    builder.add_feeder(first).unwrap();
    match builder.add_feeder(second) {
        Err(SetupError::DuplicateFeederName(name)) => assert_eq!(name, "F"),
        _ => panic!("second feeder accepted"),
    }
    let conf = builder.set_root(root).build().unwrap();
    assert_eq!(pairs(&conf.root.values()), vec![("F".to_string(), "first".to_string())]);
}

#[test]
fn feeders_resolve_in_registration_order() {
    let mut one = EnvFeeder::new("one", vars(&[("x", "1")]));
    let mut two = EnvFeeder::new("two", vars(&[("x", "2")]));
    let mut root = Config::new("root");
    root.add_feeder_matches("two", Matches::new(vec![two.add_match("x")])).unwrap();
    root.add_feeder_matches("one", Matches::new(vec![one.add_match("x"), one.add_match("x")]))
        .unwrap();
    let mut builder = Configuration::builder();
    builder.add_feeder(one).unwrap();
    builder.add_feeder(two).unwrap();
    let conf = builder.set_root(root).build().unwrap();
    assert_eq!(
        pairs(&conf.root.values()),
        vec![
            ("one".to_string(), "1".to_string()),
            ("one".to_string(), "1".to_string()),
            ("two".to_string(), "2".to_string()),
        ]
    );
}

#[test]
fn each_node_resolved_once_and_groups_not_visited() {
    let mut feeder = EnvFeeder::new("F", vars(&[("v", "x")]));
    let mut field = Field::new("fld");
    field.add_feeder_matches("F", Matches::new(vec![feeder.add_match("v")])).unwrap();
    let mut sub = Config::new("sub");
    sub.add_feeder_matches("F", Matches::new(vec![feeder.add_match("v")])).unwrap();
    let sub = sub.add_field(field).unwrap();
    let sub = sub.add_group(Group::new("grp", vec![0])).unwrap();
    let mut root = Config::new("root");
    root.add_feeder_matches("F", Matches::new(vec![feeder.add_match("v")])).unwrap();
    let root = root.add_config(sub).unwrap();
    let mut builder = Configuration::builder();
    builder.add_feeder(feeder).unwrap();
    let conf = builder.set_root(root).build().unwrap();
    assert_eq!(conf.root.values().len(), 1);
    let sub = conf.root.elements()[0].as_config().unwrap();
    assert_eq!(sub.values().len(), 1);
    assert_eq!(sub.elements()[0].values().len(), 1);
    assert_eq!(sub.groups()[0].members(), &vec![0]);
}

#[test]
fn nested_failure_carries_ancestors_and_stops() {
    let mut feeder =
        EnvFeeder::new("F", vars(&[("ok", "1")])).with_missing_policy(MissingPolicy::Fail);
    let mut deep = Config::new("deep");
    deep.add_feeder_matches("F", Matches::new(vec![feeder.add_match("absent")])).unwrap();
    let mid = Config::new("mid").add_config(deep).unwrap();
    let mut later = Field::new("later");
    later.add_feeder_matches("F", Matches::new(vec![feeder.add_match("ok")])).unwrap();
    let mid = mid.add_field(later).unwrap();
    let root = Config::new("root").add_config(mid).unwrap();
    let mut builder = Configuration::builder();
    builder.add_feeder(feeder).unwrap();
    match builder.set_root(root).build() {
        Err(Error::Run(e)) => {
            assert_eq!(e.node().unwrap(), "deep");
            assert_eq!(e.parents(), &vec!["root".to_string(), "mid".to_string()]);
            assert_eq!(e.msg().unwrap(), "no value for absent");
            assert_eq!(e.describe(), "no value for absent\nroot > mid > deep");
        }
        _ => panic!("build did not fail"),
    }
}

#[test]
fn failing_field_is_placed_under_its_config() {
    let mut feeder = EnvFeeder::new("F", vec![]).with_missing_policy(MissingPolicy::Fail);
    let mut field = Field::new("fld");
    field.add_feeder_matches("F", Matches::new(vec![feeder.add_match("NOPE")])).unwrap();
    let root = Config::new("root").add_field(field).unwrap();
    let mut builder = Configuration::builder();
    builder.add_feeder(feeder).unwrap();
    match builder.set_root(root).build() {
        Err(Error::Run(e)) => {
            assert_eq!(e.node().unwrap(), "fld");
            assert_eq!(e.parents(), &vec!["root".to_string()]);
            assert_eq!(e.msg().unwrap(), "no value for NOPE");
        }
        _ => panic!("build did not fail"),
    }
}

#[test]
fn group_with_unknown_member_is_refused() {
    let cfg = Config::new("c").add_field(Field::new("f")).unwrap();
    match cfg.add_group(Group::new("g", vec![0, 3])) {
        Err(SetupError::UnknownGroupMember(m)) => assert_eq!(m, 3),
        _ => panic!("group accepted"),
    }
}

#[test]
fn matches_repr_joins_labels() {
    let mut feeder = EnvFeeder::new("F", vec![]);
    let mut ms = Matches::new(vec![feeder.add_match("A"), feeder.add_match("B")]);
    ms.add_match(feeder.add_match("C"));
    assert_eq!(ms.repr(), "A, B, C");
    assert_eq!(ms.get(2).id_in_feeder(), 2);
    assert_eq!(Matches::new(vec![]).repr(), "");
}

#[test]
fn unknown_match_index_is_skipped() {
    let feeder = EnvFeeder::new("F", vars(&[("a", "1")]));
    let mut root = Config::new("root");
    root.add_feeder_matches("F", Matches::new(vec![excopr::Match::new(7, "a".to_string())]))
        .unwrap();
    let mut builder = Configuration::builder();
    builder.add_feeder(feeder).unwrap();
    let conf = builder.set_root(root).build().unwrap();
    assert!(conf.root.values().is_empty());
}

#[test]
fn last_of_equal_variable_names_counts() {
    let mut feeder = EnvFeeder::new("F", vars(&[("a", "1"), ("a", "2")]));
    let mut root = Config::new("root");
    root.add_feeder_matches("F", Matches::new(vec![feeder.add_match("a")])).unwrap();
    let mut builder = Configuration::builder();
    builder.add_feeder(feeder).unwrap();
    let conf = builder.set_root(root).build().unwrap();
    assert_eq!(conf.root.values()[0].raw(), "2");
}

#[test]
fn parse_error_keeps_raw_text() {
    let v = excopr::Value::new("F".to_string(), "300".to_string());
    assert_eq!(v.value::<u16>().unwrap(), 300);
    let e = v.value::<u8>().unwrap_err();
    assert_eq!(e.raw, "300");
}

#[test]
fn descriptions_are_kept() {
    let f = Field::new("f").with_description("field help");
    let g = Group::new("g", vec![0]).with_description("group help");
    let c = Config::new("c").with_description("config help").add_field(f).unwrap();
    let c = c.add_group(g).unwrap();
    assert_eq!(c.description().unwrap(), "config help");
    assert_eq!(c.elements()[0].as_field().unwrap().description().unwrap(), "field help");
    assert_eq!(c.groups()[0].description().unwrap(), "group help");
    assert!(Config::new("x").description().is_none());
}

#[test]
fn run_error_without_message_describes_path_only() {
    let e = excopr::error::RunError::new(None);
    assert_eq!(e.describe(), "");
    assert!(e.node().is_none());
    assert!(e.parents().is_empty());
    let e = e.locate(&"leaf".to_string(), &vec!["top".to_string()]);
    assert_eq!(e.describe(), "top > leaf");
}

#[test]
fn elements_share_the_node_capabilities() {
    let mut feeder = EnvFeeder::new("F", vars(&[("a", "1")]));
    let mut e = excopr::Element::Field(Field::new("f").with_description("d"));
    e.add_feeder_matches("F", Matches::new(vec![feeder.add_match("a")])).unwrap();
    assert!(e.add_feeder_matches("F", Matches::new(vec![])).is_err());
    e.append("manual", "x".to_string());
    assert_eq!(pairs(&e.values()), vec![("manual".to_string(), "x".to_string())]);
    assert_eq!(e.get_feeder_matches("F").unwrap().len(), 1);
    assert!(e.get_feeder_matches("G").is_none());
    assert_eq!(e.description().unwrap(), "d");
    assert!(e.as_config().is_none());
    let c = excopr::Element::Config(Config::new("c"));
    assert_eq!(excopr::Named::name(&c), "c");
    assert!(c.as_field().is_none());
}

#[test]
fn env_matches_hint_is_framed() {
    let mut feeder = EnvFeeder::new("env", vec![]);
    let ms = Matches::new(vec![
        feeder.add_match("TEST3"),
        feeder.add_match("TEST1"),
        feeder.add_match("TEST4"),
    ]);
    assert_eq!(EnvFeeder::matches_repr(&ms), "[env TEST3, TEST1, TEST4]");
    assert_eq!(EnvFeeder::matches_repr(&Matches::new(vec![])), "[env ]");
}

#[test]
fn failed_walk_keeps_earlier_values_and_leaves_later_nodes() {
    let mut feeder =
        EnvFeeder::new("F", vars(&[("ok", "1")])).with_missing_policy(MissingPolicy::Fail);
    let mut first = Field::new("first");
    first.add_feeder_matches("F", Matches::new(vec![feeder.add_match("ok")])).unwrap();
    let mut bad = Field::new("bad");
    bad.add_feeder_matches("F", Matches::new(vec![feeder.add_match("ok"), feeder.add_match("gone")]))
        .unwrap();
    let mut after = Field::new("after");
    after.add_feeder_matches("F", Matches::new(vec![feeder.add_match("ok")])).unwrap();
    let mut root = Config::new("root");
    root.add_feeder_matches("F", Matches::new(vec![feeder.add_match("ok")])).unwrap();
    let mut root = root.add_field(first).unwrap().add_field(bad).unwrap().add_field(after).unwrap();

    let res = excopr::populate(&feeder, &mut root);
    let e = res.unwrap_err();
    assert_eq!(e.node().unwrap(), "bad");
    assert_eq!(e.parents(), &vec!["root".to_string()]);
    assert_eq!(pairs(&root.values()), vec![("F".to_string(), "1".to_string())]);
    assert_eq!(root.elements()[0].values().len(), 1);
    assert_eq!(root.elements()[1].values().len(), 0);
    assert_eq!(root.elements()[2].values().len(), 0);
    assert_eq!(root.elements().len(), 3);
}

#[test]
fn failing_root_leaves_tree_alone() {
    let mut feeder = EnvFeeder::new("F", vec![]).with_missing_policy(MissingPolicy::Fail);
    let mut child = Field::new("child");
    child.add_feeder_matches("F", Matches::new(vec![feeder.add_match("x")])).unwrap();
    let mut root = Config::new("root");
    root.add_feeder_matches("F", Matches::new(vec![feeder.add_match("y")])).unwrap();
    let mut root = root.add_field(child).unwrap();
    let e = excopr::populate(&feeder, &mut root).unwrap_err();
    assert_eq!(e.node().unwrap(), "root");
    assert!(e.parents().is_empty());
    assert!(root.values().is_empty());
    assert!(root.elements()[0].values().is_empty());
}
