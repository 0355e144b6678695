use vstd::prelude::*;
use vstd::string::StringExecFns;

verus! {

/// The hardcoded scenes a render can be asked for by name. Building the
/// scene itself — literal lists of floating-point spheres, planes and camera
/// parameters — is the caller's work; which builder a name selects is
/// decided here.
#[derive(Clone, Copy, PartialEq, Eq, Structural, Debug)]
pub enum SceneId {
    ThinLens1,
    ThinLens2,
}

/// Selects a scene builder by name: exactly the names "thinlens1" and
/// "thinlens2" are known, and any other name yields nothing.
pub fn lookup_scene(name: &String) -> (r: Option<SceneId>)
    ensures
        name@ == "thinlens1"@ ==> r == Some(SceneId::ThinLens1),
        name@ == "thinlens2"@ ==> r == Some(SceneId::ThinLens2),
        name@ != "thinlens1"@ && name@ != "thinlens2"@ ==> r is None,
{
    proof {
        reveal_strlit("thinlens1");
        reveal_strlit("thinlens2");
        assert("thinlens1"@ != "thinlens2"@) by {
            assert("thinlens1"@[8] == '1');
            assert("thinlens2"@[8] == '2');
        }
    }
    let key1 = String::from_str("thinlens1");
    let key2 = String::from_str("thinlens2");
    if name.eq(&key1) {
        Some(SceneId::ThinLens1)
    } else if name.eq(&key2) {
        Some(SceneId::ThinLens2)
    } else {
        None
    }
}

} // verus!
