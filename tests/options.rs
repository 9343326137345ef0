use saldo::options::{Args, DisambiguateOptions, UsageError};

fn argv(v: &[&str]) -> Vec<String> {
    v.iter().map(|s| s.to_string()).collect()
}

#[test]
fn defaults_with_application_name() {
    let a = Args::parse(&argv(&["saldowsd", "-appName=VectorWSD"])).unwrap();
    assert_eq!(a.app_name, "VectorWSD");
    assert!(a.saldo.is_none());
    assert!(a.sbxml);
    assert!(!a.eval);
    assert!(!a.split_mwes);
    assert!(a.split_compounds);
    assert_eq!(a.batch_size, 1);
    assert_eq!(a.max_sen, u32::MAX as usize);
    assert_eq!(a.verbose, 0);
}

#[test]
fn flags_set_their_options() {
    let a = Args::parse(&argv(&[
        "saldowsd",
        "-appName=X",
        "-saldo=saldo.xml.gz",
        "-format=tab",
        "-splitMWEs=true",
        "-splitCompounds=false",
        "-batchSize=+12",
        "-maxSen=7",
        "-v",
        "-verbose",
        "-unknown=1",
    ]))
    .unwrap();
    assert_eq!(a.saldo.as_deref(), Some("saldo.xml.gz"));
    assert!(!a.sbxml);
    assert!(a.split_mwes);
    assert!(!a.split_compounds);
    assert_eq!(a.batch_size, 12);
    assert_eq!(a.max_sen, 7);
    assert_eq!(a.verbose, 2);
}

#[test]
fn missing_application_name_is_refused() {
    match Args::parse(&argv(&["saldowsd"])) {
        Err(UsageError::MissingRequiredArgument(m)) => assert_eq!(m, "-appName not specified"),
        other => panic!("unexpected {:?}", other),
    }
}

#[test]
fn bad_number_is_refused() {
    match Args::parse(&argv(&["saldowsd", "-appName=X", "-batchSize=ten"])) {
        Err(UsageError::BadValue { param, value }) => {
            assert_eq!(param, "-batchSize");
            assert_eq!(value, "ten");
        },
        other => panic!("unexpected {:?}", other),
    }
    assert!(Args::parse(&argv(&["-appName=X", "-splitMWEs=yes"])).is_err());
}

#[test]
fn evaluation_needs_its_files() {
    match Args::parse(&argv(&["-appName=X", "-format=eval"])) {
        Err(UsageError::MissingRequiredArgument(m)) => {
            assert_eq!(m, "-evalLemmas not specified, required when --format=eval")
        },
        other => panic!("unexpected {:?}", other),
    }
    let a = Args::parse(&argv(&[
        "-appName=X",
        "-format=eval",
        "-evalLemmas=a",
        "-evalKey=b",
        "-forLemma=c",
    ]))
    .unwrap();
    assert!(a.eval);
    assert_eq!(a.for_lemma.as_deref(), Some("c"));
}

#[test]
fn parameter_is_renamed() {
    let e = UsageError::BadValue { param: "old".into(), value: "v".into() }.with_param("-new");
    match e {
        UsageError::BadValue { param, value } => {
            assert_eq!(param, "-new");
            assert_eq!(value, "v");
        },
        other => panic!("unexpected {:?}", other),
    }
    let m = UsageError::missing_required_argument("-svFile=").with_param("-x");
    assert!(matches!(m, UsageError::MissingRequiredArgument(ref a) if a == "-svFile="));
}

#[test]
fn default_options() {
    let o = DisambiguateOptions::default();
    assert_eq!(o.batch_size, 1);
    assert_eq!(o.max_sen, u32::MAX as usize);
}
