use mini_apt::config::InstallConfig;

fn request(arch: &str) -> Result<InstallConfig, String> {
    InstallConfig::new(
        "cpp-x86-64-linux-gnu".to_string(),
        vec!["https://mirrors.example.com/ubuntu-ports".to_string()],
        arch.to_string(),
        "sysroot".to_string(),
    )
}

#[test]
fn known_architectures_are_accepted() {
    for arch in ["arm64", "x86_64", "all", "amd64", "i386", "arm", "armhf", "ppc64el", "s390x"] {
        let config = request(arch).unwrap();
        assert_eq!(config.architecture, arch);
        assert_eq!(config.package_name, "cpp-x86-64-linux-gnu");
        assert_eq!(config.mirrors, vec!["https://mirrors.example.com/ubuntu-ports".to_string()]);
        assert_eq!(config.root_dir, "sysroot");
    }
}

#[test]
fn unknown_architecture_is_refused_with_the_list() {
    for arch in ["", "ARM64", "arm64 ", "riscv64", "x86-64", "arm6", "arm64x", "mips"] {
        let message = request(arch).unwrap_err();
        assert_eq!(
            message,
            "Architecture must be one of: arm64, x86_64, all, amd64, i386, arm, armhf, arm64, ppc64el, s390x"
        );
    }
}

#[test]
fn empty_request_is_still_a_request() {
    let config = InstallConfig::new(String::new(), Vec::new(), "all".to_string(), String::new()).unwrap();
    assert!(config.mirrors.is_empty());
    assert_eq!(config.package_name, "");
}

#[test]
fn default_request() {
    let config = InstallConfig::default();
    assert_eq!(config.package_name, "");
    assert!(config.mirrors.is_empty());
    assert_eq!(config.architecture, "arm64");
    assert_eq!(config.root_dir, "/");
}

#[test]
fn version_and_build_number() {
    let config = InstallConfig::default();
    assert_eq!(config.get_version(), "1.0.0");
    assert_eq!(config.get_build_number(), "1");
}
