//! The applications whose audio can be captured.
use vstd::prelude::*;

verus! {

/// A running application that can be captured.
#[derive(Clone, Debug, PartialEq, Eq)]
pub struct AppInfo {
    pub bundle_id: String,
    pub name: String,
    pub pid: i32,
}

/// `app` has the bundle identifier `bundle`.
pub open spec fn has_bundle(app: AppInfo, bundle: Seq<char>) -> bool {
    app.bundle_id@ == bundle
}

/// The position of the first running application with the bundle identifier
/// `bundle`, if one is running.
pub fn find_app(apps: &Vec<AppInfo>, bundle: &String) -> (r: Option<usize>)
    ensures
        match r {
            Some(i) => i < apps@.len() && has_bundle(apps@[i as int], bundle@) && forall|j: int|
                0 <= j < i ==> !has_bundle(#[trigger] apps@[j], bundle@),
            None => forall|j: int| 0 <= j < apps@.len() ==> !has_bundle(#[trigger] apps@[j], bundle@),
        },
{
    let mut i: usize = 0;
    while i < apps.len()
        invariant
            i <= apps@.len(),
            forall|j: int| 0 <= j < i ==> !has_bundle(#[trigger] apps@[j], bundle@),
        decreases apps@.len() - i,
    {
        if apps[i].bundle_id == *bundle {
            return Some(i);
        }
        i = i + 1;
    }
    None
}

} // verus!
