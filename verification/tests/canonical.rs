use scheduler::job::Job;
use scheduler::time::{Instant, Span};
use scheduler::trigger::{Interval, Oneshot, Trigger, TriggerSet, Weekly};
use scheduler::zone::Tz;

fn at(secs: i64, nanos: u32) -> Instant {
    Instant::from_timestamp(secs, nanos).unwrap()
}

fn zone(name: &str) -> Tz {
    Tz::from_name(name).unwrap()
}

fn oneshot() -> Trigger {
    Trigger::Oneshot(Oneshot::new(at(1, 0)))
}

fn interval() -> Trigger {
    Trigger::Interval(Interval::new(Span::from_secs(1)))
}

fn weekly() -> Trigger {
    Trigger::Weekly(Weekly::new(
        [true, true, true, true, false, false, false],
        Span::from_secs(60),
        zone("UTC"),
    ))
}

fn callback(_context: &serde_json::Value) {
    println!("test job callback");
}

const EXPECTED_TRIGGERS: &str = r#"[{"type":"Oneshot","datetime":"1970-01-01T00:00:01Z"},{"type":"Interval","interval":{"secs":1,"nanos":0},"last_run":null},{"type":"Weekly","weekdays":[true,true,true,true,false,false,false],"time":{"secs":60,"nanos":0},"tz":"UTC"}]"#;

#[test]
fn canonical_form_of_a_oneshot() {
    assert_eq!(oneshot().hash(), r#"{"datetime":"1970-01-01T00:00:01Z"}"#);
    assert_eq!(
        Oneshot::new(at(1_672_531_200, 250_000_000)).hash(),
        r#"{"datetime":"2023-01-01T00:00:00.250Z"}"#
    );
    assert_eq!(
        oneshot().to_json(),
        r#"{"type":"Oneshot","datetime":"1970-01-01T00:00:01Z"}"#
    );
}

#[test]
fn canonical_form_of_an_interval() {
    assert_eq!(
        interval().hash(),
        r#"{"interval":{"secs":1,"nanos":0},"last_run":null}"#
    );
    assert_eq!(
        Interval::resumed(Span::new(18_446_744_073_709_551_615, 999_999_999).unwrap(), at(0, 0))
            .hash(),
        r#"{"interval":{"secs":18446744073709551615,"nanos":999999999},"last_run":"1970-01-01T00:00:00Z"}"#
    );
    assert_eq!(
        Interval::new(Span::new(120, 5).unwrap()).hash(),
        r#"{"interval":{"secs":120,"nanos":5},"last_run":null}"#
    );
    assert_eq!(
        interval().to_json(),
        r#"{"type":"Interval","interval":{"secs":1,"nanos":0},"last_run":null}"#
    );
}

#[test]
fn canonical_form_of_a_weekly() {
    assert_eq!(
        weekly().hash(),
        r#"{"weekdays":[true,true,true,true,false,false,false],"time":{"secs":60,"nanos":0},"tz":"UTC"}"#
    );
    assert_eq!(
        Weekly::new([false; 7], Span::new(43_200, 1).unwrap(), zone("Europe/Berlin")).hash(),
        r#"{"weekdays":[false,false,false,false,false,false,false],"time":{"secs":43200,"nanos":1},"tz":"Europe/Berlin"}"#
    );
    assert_eq!(
        weekly().to_json(),
        r#"{"type":"Weekly","weekdays":[true,true,true,true,false,false,false],"time":{"secs":60,"nanos":0},"tz":"UTC"}"#
    );
}

#[test]
fn canonical_forms_are_valid_json() {
    for trigger in [oneshot(), interval(), weekly()] {
        let plain: serde_json::Value = serde_json::from_str(&trigger.hash()).unwrap();
        let tagged: serde_json::Value = serde_json::from_str(&trigger.to_json()).unwrap();
        let mut fields = tagged.as_object().unwrap().clone();
        assert!(fields.remove("type").unwrap().is_string());
        assert_eq!(serde_json::Value::Object(fields), plain);
    }
}

#[test]
fn triggers_are_told_apart_by_their_canonical_forms() {
    assert!(oneshot().same_as(&oneshot()));
    assert!(interval().same_as(&interval()));
    assert!(weekly().same_as(&weekly()));
    assert!(!oneshot().same_as(&interval()));
    assert!(!oneshot().same_as(&Trigger::Oneshot(Oneshot::new(at(1, 1)))));
    assert!(!interval().same_as(&Trigger::Interval(Interval::resumed(Span::from_secs(1), at(0, 0)))));
}

#[test]
fn triggers_are_ordered_by_their_canonical_forms() {
    let all = [oneshot(), interval(), weekly()];
    for a in all.iter() {
        for b in all.iter() {
            assert_eq!(a.comes_before(b), a.hash() < b.hash());
            let apart = !a.same_as(b);
            assert_eq!(apart, a.comes_before(b) || b.comes_before(a));
            assert!(!(a.comes_before(b) && b.comes_before(a)));
        }
    }
    assert!(oneshot().comes_before(&interval()));
    assert!(interval().comes_before(&weekly()));
    assert!(oneshot().comes_before(&weekly()));
}

#[test]
fn test_trigger_collection() {
    let tc = TriggerSet::from_vec(vec![oneshot(), interval(), weekly()]);
    let tc_json = tc.to_json();
    println!("{:#?}", tc_json);
    assert_eq!(tc_json, EXPECTED_TRIGGERS);
}

#[test]
fn trigger_set_does_not_depend_on_the_order_of_insertion() {
    let orders: Vec<Vec<Trigger>> = vec![
        vec![oneshot(), interval(), weekly()],
        vec![oneshot(), weekly(), interval()],
        vec![interval(), oneshot(), weekly()],
        vec![interval(), weekly(), oneshot()],
        vec![weekly(), oneshot(), interval()],
        vec![weekly(), interval(), oneshot()],
    ];
    let reference = TriggerSet::from_vec(vec![oneshot(), interval(), weekly()]);
    for order in orders {
        let set = TriggerSet::from_vec(order);
        assert_eq!(set.len(), 3);
        assert!(set.same_as(&reference));
        assert!(reference.same_as(&set));
        assert_eq!(set.to_json(), EXPECTED_TRIGGERS);
    }
}

#[test]
fn trigger_set_keeps_one_of_each_trigger() {
    let mut set = TriggerSet::new();
    assert_eq!(set.len(), 0);
    assert_eq!(set.to_json(), "[]");
    assert!(set.insert(weekly()));
    assert!(set.insert(oneshot()));
    assert!(!set.insert(weekly()));
    assert!(!set.insert(oneshot()));
    assert_eq!(set.len(), 2);
    assert!(set.insert(interval()));
    assert!(!set.insert(interval()));
    assert_eq!(set.len(), 3);
    assert_eq!(set.to_json(), EXPECTED_TRIGGERS);
    let doubled = TriggerSet::from_vec(vec![
        interval(),
        oneshot(),
        interval(),
        weekly(),
        oneshot(),
        weekly(),
    ]);
    assert!(doubled.same_as(&set));
    assert!(!TriggerSet::from_vec(vec![interval()]).same_as(&set));
    assert!(!TriggerSet::new().same_as(&set));
    assert!(TriggerSet::new().same_as(&TriggerSet::from_vec(vec![])));
}

#[test]
fn trigger_set_hands_out_its_triggers_in_canonical_order() {
    let set = TriggerSet::from_vec(vec![
        weekly(),
        Trigger::Oneshot(Oneshot::new(at(2, 0))),
        interval(),
        oneshot(),
    ]);
    let forms: Vec<String> = set.iter().map(|t| t.hash()).collect();
    let mut sorted = forms.clone();
    sorted.sort();
    assert_eq!(forms, sorted);
    assert_eq!(forms.len(), 4);
    assert_eq!(forms[0], r#"{"datetime":"1970-01-01T00:00:01Z"}"#);
    assert_eq!(forms[1], r#"{"datetime":"1970-01-01T00:00:02Z"}"#);
    assert!(set.get(4).is_none());
    for (i, form) in forms.iter().enumerate() {
        assert_eq!(&set.get(i).unwrap().hash(), form);
    }
}

#[test]
fn job_test_job_serialize() {
    let job = Job::new(
        "test".to_string(),
        Some(callback as fn(&serde_json::Value)),
        serde_json::Value::Null,
        TriggerSet::from_vec(vec![oneshot(), interval(), weekly()]),
    );

    let expected_job_json = r#"{"name":"test","callback_context":null,"triggers":[{"type":"Oneshot","datetime":"1970-01-01T00:00:01Z"},{"type":"Interval","interval":{"secs":1,"nanos":0},"last_run":null},{"type":"Weekly","weekdays":[true,true,true,true,false,false,false],"time":{"secs":60,"nanos":0},"tz":"UTC"}]}"#;

    let job_json = job.to_json(&serde_json::to_string(job.context()).unwrap());
    assert_eq!(expected_job_json, job_json);
}

#[test]
fn job_name_is_written_as_a_json_string() {
    let mut context = serde_json::Map::new();
    context.insert("bar".to_string(), serde_json::Value::from(42));
    context.insert("baz".to_string(), serde_json::Value::from("weeeeh"));
    let job: Job<serde_json::Value, fn(&serde_json::Value)> = Job::new(
        "a \"quoted\"\\ name\n".to_string(),
        None,
        serde_json::Value::Object(context),
        TriggerSet::new(),
    );
    let text = job.to_json(&serde_json::to_string(job.context()).unwrap());
    assert_eq!(
        text,
        r#"{"name":"a \"quoted\"\\ name\n","callback_context":{"bar":42,"baz":"weeeeh"},"triggers":[]}"#
    );
    let read: serde_json::Value = serde_json::from_str(&text).unwrap();
    assert_eq!(read["name"], serde_json::Value::from("a \"quoted\"\\ name\n"));
    assert_eq!(read["callback_context"]["bar"], serde_json::Value::from(42));
}

#[test]
fn tests_test_job_serialize() {
    let oneshot = Oneshot::new(at(1, 0));
    let job = Job::new(
        "test".to_string(),
        Some(callback as fn(&serde_json::Value)),
        serde_json::Value::Null,
        TriggerSet::from_vec(vec![Trigger::Oneshot(oneshot)]),
    );

    let foo = job.to_json("null");
    println!("{foo}");
    assert_eq!(
        foo,
        r#"{"name":"test","callback_context":null,"triggers":[{"type":"Oneshot","datetime":"1970-01-01T00:00:01Z"}]}"#
    );
}

#[test]
fn triggers_compare_as_their_canonical_forms_do() {
    let all = [oneshot(), interval(), weekly()];
    for a in all.iter() {
        for b in all.iter() {
            assert_eq!(a == b, a.hash() == b.hash());
            assert_eq!(a < b, a.hash() < b.hash());
            assert_eq!(a.partial_cmp(b), Some(a.hash().cmp(&b.hash())));
        }
        let copy = a.clone();
        assert!(copy == *a);
        assert_eq!(copy.hash(), a.hash());
        assert_eq!(copy.to_json(), a.to_json());
    }
    let mut shuffled = vec![weekly(), interval(), oneshot()];
    shuffled.sort_by(|a, b| a.partial_cmp(b).unwrap());
    assert!(shuffled[0] == oneshot());
    assert!(shuffled[1] == interval());
    assert!(shuffled[2] == weekly());
}

#[test]
fn trigger_sets_compare_as_their_members_do() {
    let a = TriggerSet::from_vec(vec![weekly(), oneshot()]);
    let b = TriggerSet::from_vec(vec![oneshot(), weekly(), oneshot()]);
    let c = TriggerSet::from_vec(vec![oneshot(), interval()]);
    assert!(a == b);
    assert!(b == a);
    assert!(a != c);
    assert!(TriggerSet::new() == TriggerSet::from_vec(vec![]));
    assert_eq!(a.to_json(), b.to_json());
}
