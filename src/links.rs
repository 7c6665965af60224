//! Where the documents of a data model are published.
use vstd::prelude::*;
use vstd::string::StringExecFns;

verus! {

/// The address of a model's schema document.
pub open spec fn yaml_link(repo: Seq<char>, model: Seq<char>) -> Seq<char> {
    "https://raw.githubusercontent.com/smart-data-models/dataModel."@ + repo + "/master/"@ + model
        + "/model.yaml"@
}

/// The address of a model's page in its repository.
pub open spec fn github_link(repo: Seq<char>, model: Seq<char>) -> Seq<char> {
    "https://github.com/smart-data-models/dataModel."@ + repo + "/tree/master/"@ + model
}

/// The address of the schema document of model `repo` in repository
/// `data_model`.
pub fn data_model_yaml(data_model: &str, repo: &str) -> (r: String)
    ensures
        r@ == yaml_link(data_model@, repo@),
{
    let s = String::from_str("https://raw.githubusercontent.com/smart-data-models/dataModel.");
    let s = s.concat(data_model);
    let s = s.concat("/master/");
    let s = s.concat(repo);
    s.concat("/model.yaml")
}

/// The address of the page of model `name` in repository `repo_name`.
pub fn data_model_github(repo_name: &str, name: &str) -> (r: String)
    ensures
        r@ == github_link(repo_name@, name@),
{
    let s = String::from_str("https://github.com/smart-data-models/dataModel.");
    let s = s.concat(repo_name);
    let s = s.concat("/tree/master/");
    s.concat(name)
}

} // verus!
