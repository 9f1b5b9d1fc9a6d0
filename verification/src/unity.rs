//! Packaging manifest for engine import: which files one converted model
//! consists of.

use vstd::prelude::*;

use crate::strutil::append_str;
use vstd::string::StringExecFns;

verus! {

/// The manifest of one packaged model: its name, the geometry and material
/// file names, and the texture files that travel with it.
#[derive(Debug, Clone)]
pub struct UnityPackage {
    pub name: String,
    pub obj: String,
    pub mtl: String,
    pub textures: Vec<String>,
}

/// Plan the package manifest for a model: geometry and material files are
/// the base name with their extensions; textures are taken as given.
pub fn package_manifest(base_name: &str, textures: Vec<String>) -> (p: UnityPackage)
    ensures
        p.name@ == base_name@,
        p.obj@ == base_name@ + ".obj"@,
        p.mtl@ == base_name@ + ".mtl"@,
        p.textures@ == textures@,
{
    let name = String::from_str(base_name);
    let mut obj = String::from_str(base_name);
    append_str(&mut obj, ".obj");
    let mut mtl = String::from_str(base_name);
    append_str(&mut mtl, ".mtl");
    UnityPackage { name, obj, mtl, textures }
}

} // verus!
