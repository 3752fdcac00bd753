//! What to install, from where and for which architecture.

use crate::text::{join_all, str_eq, strs_view};
use vstd::prelude::*;
use vstd::string::StringExecFns;

verus! {

/// A request to install one package.
#[derive(Debug, Clone)]
pub struct InstallConfig {
    /// Name of the package to install.
    pub package_name: String,
    /// Base addresses of the mirrors to try, in order of preference.
    pub mirrors: Vec<String>,
    /// Architecture to install for.
    pub architecture: String,
    /// Directory that the artifact goes to.
    pub root_dir: String,
}

/// The architectures that a request may name, as they are listed to the user.
pub open spec fn valid_architectures() -> Seq<Seq<char>> {
    seq![
        "arm64"@,
        "x86_64"@,
        "all"@,
        "amd64"@,
        "i386"@,
        "arm"@,
        "armhf"@,
        "arm64"@,
        "ppc64el"@,
        "s390x"@,
    ]
}

/// What a request for an unknown architecture is answered with.
pub open spec fn architecture_error_text() -> Seq<char> {
    "Architecture must be one of: "@ + join_all(valid_architectures(), ", "@)
}

fn architecture_names() -> (names: Vec<&'static str>)
    ensures
        strs_view(names@) == valid_architectures(),
{
    let names = vec![
        "arm64",
        "x86_64",
        "all",
        "amd64",
        "i386",
        "arm",
        "armhf",
        "arm64",
        "ppc64el",
        "s390x",
    ];
    assert(strs_view(names@) =~= valid_architectures());
    names
}

fn join(parts: &Vec<&'static str>, sep: &str) -> (joined: String)
    ensures
        joined@ == join_all(strs_view(parts@), sep@),
{
    let mut joined = String::new();
    let mut i: usize = 0;
    while i < parts.len()
        invariant
            i <= parts.len(),
            joined@ == join_all(strs_view(parts@).take(i as int), sep@),
        decreases parts.len() - i,
    {
        proof {
            let views = strs_view(parts@);
            assert(views.take(i + 1).drop_last() =~= views.take(i as int));
            assert(views.take(i + 1).last() == parts@[i as int]@);
            if i == 0 {
                assert(views.take(1)[0] == parts@[0]@);
            }
        }
        if i > 0 {
            joined.append(sep);
        }
        joined.append(parts[i]);
        proof {
            if i == 0 {
                assert(Seq::<char>::empty() + parts@[0]@ =~= parts@[0]@);
            }
        }
        i += 1;
    }
    assert(strs_view(parts@).take(parts.len() as int) =~= strs_view(parts@));
    joined
}

impl InstallConfig {
    /// A request for `package_name`, to be had from `mirrors` in their order,
    /// for `architecture`, into `root_dir`.
    ///
    /// The architecture must be one of the known ones; otherwise the answer is
    /// a message that lists them.
    pub fn new(
        package_name: String,
        mirrors: Vec<String>,
        architecture: String,
        root_dir: String,
    ) -> (made: Result<Self, String>)
        ensures
            match made {
                Ok(config) => valid_architectures().contains(architecture@) && config.package_name
                    == package_name && config.mirrors == mirrors && config.architecture
                    == architecture && config.root_dir == root_dir,
                Err(message) => !valid_architectures().contains(architecture@) && message@
                    == architecture_error_text(),
            },
    {
        let names = architecture_names();
        let mut i: usize = 0;
        while i < names.len()
            invariant
                i <= names.len(),
                strs_view(names@) == valid_architectures(),
                forall|k: int| 0 <= k < i ==> valid_architectures()[k] != architecture@,
            decreases names.len() - i,
        {
            assert(strs_view(names@)[i as int] == names@[i as int]@);
            if str_eq(names[i], architecture.as_str()) {
                return Ok(InstallConfig { package_name, mirrors, architecture, root_dir });
            }
            i += 1;
        }
        assert(strs_view(names@).len() == names@.len());
        let mut message = "Architecture must be one of: ".to_owned();
        let list = join(&names, ", ");
        message.append(list.as_str());
        Err(message)
    }

    /// The version of this program.
    pub fn get_version(&self) -> (version: String)
        ensures
            version@ == "1.0.0"@,
    {
        "1.0.0".to_owned()
    }

    /// The build number of this program.
    pub fn get_build_number(&self) -> (number: String)
        ensures
            number@ == "1"@,
    {
        "1".to_owned()
    }
}

impl Default for InstallConfig {
    /// A request that names no package and no mirror, for `arm64`, into `/`.
    fn default() -> (config: Self)
        ensures
            config.package_name@ == Seq::<char>::empty(),
            config.mirrors@ == Seq::<String>::empty(),
            config.architecture@ == "arm64"@,
            config.root_dir@ == "/"@,
    {
        InstallConfig {
            package_name: String::new(),
            mirrors: Vec::new(),
            architecture: "arm64".to_owned(),
            root_dir: "/".to_owned(),
        }
    }
}

} // verus!
