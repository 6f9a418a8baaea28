use vstd::prelude::*;
use vstd::string::*;

verus! {

/// The label of a project's view: the group prefix `child_` and the
/// project identifier.
pub fn view_label(project_id: &str) -> (r: String)
    ensures
        r@ == "child_"@ + project_id@,
{
    let mut r = String::from_str("child_");
    r.append(project_id);
    r
}

/// The locator of a project's home document.
pub fn get_project_url(project_id: &str) -> (r: String)
    ensures
        r@ == "myapp://"@ + project_id@ + "/"@,
{
    let mut r = String::from_str("myapp://");
    r.append(project_id);
    r.append("/");
    r
}

/// A greeting for the front end.
pub fn greet(name: &str) -> (r: String)
    ensures
        r@ == "Hello, "@ + name@ + "! You've been greeted from Rust!"@,
{
    let mut r = String::from_str("Hello, ");
    r.append(name);
    r.append("! You've been greeted from Rust!");
    r
}

} // verus!
