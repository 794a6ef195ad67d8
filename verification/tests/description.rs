use libafl_bolts::shmem::{ShMemDescription, ShMemId};
use nautilus_fuzzer::description::{map_description_from_env, DescriptionError};

#[test]
fn description_round_trips_through_json() {
    let d = ShMemDescription { size: 65544, id: ShMemId::from_string("42") };
    let text = serde_json::to_string(&d).unwrap();
    let (size, id) = map_description_from_env(Some(text)).unwrap();
    assert_eq!(size, 65544);
    assert_eq!(&id, d.id.as_array());
    assert_eq!(id[0], b'4');
    assert_eq!(id[1], b'2');
    assert!(id[2..].iter().all(|b| *b == 0));
}

#[test]
fn missing_description_is_reported() {
    assert_eq!(map_description_from_env(None), Err(DescriptionError::Missing));
}

#[test]
fn unparseable_description_is_reported() {
    assert_eq!(map_description_from_env(Some(String::new())), Err(DescriptionError::Unparseable));
    assert_eq!(
        map_description_from_env(Some("{\"size\": 3}".to_string())),
        Err(DescriptionError::Unparseable)
    );
    assert_eq!(
        map_description_from_env(Some("not json".to_string())),
        Err(DescriptionError::Unparseable)
    );
}
