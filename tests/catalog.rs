use smartdata_browser::catalog::{remove_part, DataModelData, DataModelRepo, ModelList, RawDataModelRepo, RawModelList};
use smartdata_browser::error::ParseError;
use smartdata_browser::links::{data_model_github, data_model_yaml};

fn raw(repo_name: &str, models: &[&str]) -> RawDataModelRepo {
    RawDataModelRepo {
        repo_name: repo_name.to_string(),
        link: format!("https://example.org/{repo_name}"),
        data_models: models.iter().map(|m| m.to_string()).collect(),
        domains: vec!["Environment".to_string()],
    }
}

fn repo(name: &str, models: &[&str]) -> DataModelRepo {
    DataModelRepo {
        name: name.to_string(),
        link: String::new(),
        data_models: models.iter().map(|m| m.to_string()).collect(),
        domains: vec![],
    }
}

#[test]
fn load_strips_repo_prefix() {
    let list = ModelList::load(RawModelList {
        date: "2024-05-01".to_string(),
        entries: vec![raw("datamodel.Weather", &["WeatherObserved"])],
    })
    .unwrap();
    assert_eq!(list.date, "2024-05-01");
    assert_eq!(list.entries.len(), 1);
    assert_eq!(list.entries[0].name, "Weather");
    assert_eq!(list.entries[0].link, "https://example.org/datamodel.Weather");
    assert_eq!(list.entries[0].data_models, vec!["WeatherObserved".to_string()]);
    assert_eq!(list.entries[0].domains, vec!["Environment".to_string()]);
}

#[test]
fn load_fails_on_name_without_separator() {
    let r = ModelList::load(RawModelList {
        date: "2024-05-01".to_string(),
        entries: vec![raw("dataModel.Parking", &[]), raw("NoSeparator", &[])],
    });
    assert_eq!(r, Err(ParseError::MalformedRepoName));
}

#[test]
fn load_of_empty_catalog() {
    let list = ModelList::load(RawModelList { date: String::new(), entries: vec![] }).unwrap();
    assert!(list.entries.is_empty());
}

#[test]
fn remove_part_splits_at_first_dot() {
    assert_eq!(remove_part("dataModel.Weather"), Ok("Weather".to_string()));
    assert_eq!(remove_part("a.b.c"), Ok("b.c".to_string()));
    assert_eq!(remove_part("trailing."), Ok(String::new()));
    assert_eq!(remove_part("NoSeparator"), Err(ParseError::MalformedRepoName));
    assert_eq!(remove_part(""), Err(ParseError::MalformedRepoName));
}

#[test]
fn entry_matches_name_or_child() {
    let e = repo("Weather", &["Observation"]);
    assert!(e.matches("Obs"));
    assert!(e.matches("Weat"));
    assert!(!e.matches("zzz"));
    assert!(e.matches(""));
}

#[test]
fn filtered_entries_keep_catalog_order() {
    let list = ModelList {
        date: String::new(),
        entries: vec![
            repo("Weather", &["Observation"]),
            repo("Parking", &["OffStreetParking"]),
            repo("Transportation", &["TrafficFlowObserved"]),
        ],
    };
    let names = |v: Vec<DataModelRepo>| v.into_iter().map(|e| e.name).collect::<Vec<_>>();
    assert_eq!(names(list.get_filtered_entries("Obs")), vec!["Weather", "Transportation"]);
    assert_eq!(names(list.get_filtered_entries("Park")), vec!["Parking"]);
    assert_eq!(names(list.get_filtered_entries("zzz")), Vec::<String>::new());
    assert_eq!(names(list.get_filtered_entries("")), vec!["Weather", "Parking", "Transportation"]);
}

#[test]
fn links_follow_the_templates() {
    assert_eq!(
        data_model_yaml("Weather", "WeatherObserved"),
        "https://raw.githubusercontent.com/smart-data-models/dataModel.Weather/master/WeatherObserved/model.yaml"
    );
    assert_eq!(
        data_model_github("Weather", "WeatherObserved"),
        "https://github.com/smart-data-models/dataModel.Weather/tree/master/WeatherObserved"
    );
}

#[test]
fn selection_of_a_model() {
    let d = DataModelData::select("Weather", "WeatherObserved");
    assert_eq!(d.repo_name, "Weather");
    assert_eq!(d.maybe_current(), Some("WeatherObserved"));
    assert_eq!(d.url, data_model_yaml("Weather", "WeatherObserved"));
    assert_eq!(DataModelData::default().maybe_current(), None);
}
