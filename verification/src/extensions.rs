//! Decision kernels of extension installation: whether an install pass is
//! needed at all, which archive entry is the package manifest, and where
//! an installed extension's entry point lives. Reading archives and
//! writing files stay with the embedding application.

use vstd::prelude::*;

verus! {

/// An extension archive's manifest, reduced to the fields installation
/// reads.
pub struct ExtensionManifest {
    pub name: String,
    pub main: Option<String>,
    pub description: Option<String>,
    pub version: Option<String>,
    pub product_name: Option<String>,
}

/// The archive entry holding the package manifest: `package/package.json`
/// at the usual depth, or `package.json` at the root.
pub fn is_manifest_path(path: &str) -> (r: bool)
    ensures
        r == (path@ == "package/package.json"@ || path@ == "package.json"@),
{
    crate::strings::str_eq(path, "package/package.json") || crate::strings::str_eq(
        path,
        "package.json",
    )
}

/// Whether extensions must be (re)installed: always under force or a
/// requested clean run, otherwise only when the stored version differs
/// from the application's or the extensions folder is gone.
pub fn should_reinstall(
    force: bool,
    clean_requested: bool,
    stored_version: &str,
    app_version: &str,
    extensions_path_exists: bool,
) -> (r: bool)
    ensures
        r == (force || clean_requested || stored_version@ != app_version@
            || !extensions_path_exists),
{
    if force || clean_requested {
        true
    } else if crate::strings::str_eq(stored_version, app_version) && extensions_path_exists {
        false
    } else {
        true
    }
}

impl ExtensionManifest {
    /// The manifest's entry file, defaulting to `index.js`.
    pub fn main_entry(&self) -> (r: String)
        ensures
            self.main matches Some(m) ==> r@ == m@,
            self.main is None ==> r@ == "index.js"@,
    {
        match &self.main {
            Some(m) => m.clone(),
            None => String::from_str("index.js"),
        }
    }

    /// Where the installed extension is loaded from: the extension
    /// directory and the entry file joined with one separator.
    pub fn entry_url(&self, extension_dir: &str) -> (r: String)
        ensures
            self.main matches Some(m) ==> r@ == extension_dir@ + seq!['/'] + m@,
            self.main is None ==> r@ == extension_dir@ + seq!['/'] + "index.js"@,
    {
        let mut out = String::from_str(extension_dir);
        out.append("/");
        let entry = self.main_entry();
        out.append(entry.as_str());
        proof {
            reveal_strlit("/");
            assert("/"@ =~= seq!['/']);
        }
        out
    }
}

} // verus!
