use pag::crypto::{blake3, sha256, sha512, verify_checksum};
use pag::deps::{compare_versions, DepSolver, Dependency, PackageInfo, VersionReq};
use pag::package::{
    decompress_payload, install_destination, read_package_from_bytes, write_package_to_writer,
    Compression, PackageFormatError, PackageHeader,
};
use std::cmp::Ordering;
use std::io::Write;

fn info(version: &str, depends: &[&str]) -> PackageInfo {
    PackageInfo {
        version: version.to_string(),
        depends: depends.iter().map(|d| d.to_string()).collect(),
        provides: vec![],
        conflicts: vec![],
        repo: "core".to_string(),
        install_size: 1000,
    }
}

#[test]
fn test_sha256() {
    let hash = sha256(b"hello pag");
    assert_eq!(hash.len(), 64);
}

#[test]
fn test_blake3() {
    let hash = blake3(b"hello pag");
    assert_eq!(hash.len(), 64);
}

#[test]
fn test_verify_checksum() {
    let data = b"test data";
    let hash = sha256(data);
    assert!(verify_checksum(data, &hash, "sha256"));
    assert!(!verify_checksum(data, "badhash", "sha256"));
}

#[test]
fn test_dependency_parse() {
    let dep = Dependency::parse("glibc>=2.39");
    assert_eq!(dep.name, "glibc");
    assert!(dep.matches("2.40"));
    assert!(!dep.matches("2.38"));
}

#[test]
fn test_version_comparison() {
    assert_eq!(compare_versions("1.0.0", "1.0.1"), Ordering::Less);
    assert_eq!(compare_versions("2.0", "1.9"), Ordering::Greater);
    assert_eq!(compare_versions("1.0.0", "1.0.0"), Ordering::Equal);
    assert_eq!(compare_versions("1.0rc1", "1.0"), Ordering::Less);
}

#[test]
fn test_solver_basic() {
    let mut solver = DepSolver::new();
    solver.add_available("nginx", PackageInfo {
        version: "1.26.0".into(),
        depends: vec!["pcre2".into(), "openssl".into()],
        provides: vec![],
        conflicts: vec![],
        repo: "core".into(),
        install_size: 2000000,
    });
    solver.add_available("pcre2", PackageInfo {
        version: "10.43".into(),
        depends: vec![],
        provides: vec![],
        conflicts: vec![],
        repo: "core".into(),
        install_size: 1000000,
    });
    solver.add_available("openssl", PackageInfo {
        version: "3.3.0".into(),
        depends: vec![],
        provides: vec![],
        conflicts: vec![],
        repo: "core".into(),
        install_size: 5000000,
    });
    let result = solver.solve(&["nginx".into()], true);
    assert_eq!(result.to_install.len(), 3);
}

fn strings(v: &[String]) -> serde_json::Value {
    serde_json::Value::Array(v.iter().map(|d| serde_json::Value::String(d.clone())).collect())
}

fn opt_string(v: &Option<String>) -> serde_json::Value {
    match v {
        Some(s) => serde_json::Value::String(s.clone()),
        None => serde_json::Value::Null,
    }
}

/// The header as the JSON object that a `.pag` file carries, field by field.
fn header_to_json(h: &PackageHeader) -> Vec<u8> {
    let mut m = serde_json::Map::new();
    m.insert("format_version".into(), serde_json::Value::from(h.format_version));
    m.insert("name".into(), serde_json::Value::String(h.name.clone()));
    m.insert("version".into(), serde_json::Value::String(h.version.clone()));
    m.insert("release".into(), serde_json::Value::from(h.release));
    m.insert("description".into(), serde_json::Value::String(h.description.clone()));
    m.insert("url".into(), opt_string(&h.url));
    m.insert("arch".into(), serde_json::Value::String(h.arch.clone()));
    m.insert("license".into(), serde_json::Value::String(h.license.clone()));
    m.insert("installed_size".into(), serde_json::Value::from(h.installed_size));
    m.insert("compressed_size".into(), serde_json::Value::from(h.compressed_size));
    m.insert("depends".into(), strings(&h.depends));
    m.insert("optdepends".into(), strings(&h.optdepends));
    m.insert("makedepends".into(), strings(&h.makedepends));
    m.insert("conflicts".into(), strings(&h.conflicts));
    m.insert("replaces".into(), strings(&h.replaces));
    m.insert("provides".into(), strings(&h.provides));
    m.insert("required_by".into(), strings(&h.required_by));
    m.insert("optional".into(), strings(&h.optional));
    m.insert("group".into(), opt_string(&h.group));
    m.insert("maintainer".into(), opt_string(&h.maintainer));
    m.insert("build_date".into(), serde_json::Value::from(h.build_date));
    m.insert("sha512".into(), serde_json::Value::String(h.sha512.clone()));
    m.insert("blake3".into(), serde_json::Value::String(h.blake3.clone()));
    m.insert("pgp_signature".into(), opt_string(&h.pgp_signature));
    serde_json::to_vec(&serde_json::Value::Object(m)).unwrap()
}

fn json_strings(v: &serde_json::Value) -> Vec<String> {
    v.as_array().unwrap().iter().map(|x| x.as_str().unwrap().to_string()).collect()
}

/// A header read back from its JSON object.
fn header_from_json(bytes: &[u8]) -> PackageHeader {
    let v: serde_json::Value = serde_json::from_slice(bytes).unwrap();
    let mut h = PackageHeader::new(
        v["name"].as_str().unwrap(),
        v["version"].as_str().unwrap(),
        v["arch"].as_str().unwrap(),
    );
    h.format_version = v["format_version"].as_u64().unwrap() as u32;
    h.release = v["release"].as_u64().unwrap() as u32;
    h.description = v["description"].as_str().unwrap().to_string();
    h.license = v["license"].as_str().unwrap().to_string();
    h.installed_size = v["installed_size"].as_u64().unwrap();
    h.depends = json_strings(&v["depends"]);
    h.provides = json_strings(&v["provides"]);
    h.conflicts = json_strings(&v["conflicts"]);
    h.build_date = v["build_date"].as_i64().unwrap();
    h
}

#[test]
fn test_package_roundtrip() {
    let mut header = PackageHeader::new("test-pkg", "1.0.0", "x86_64");
    header.description = "Test package".into();
    header.license = "MIT".into();
    header.depends = vec!["glibc".into()];
    header.provides = vec!["test-virtual".into()];

    let payload = b"fake-payload-data";

    let mut buf = Vec::new();
    write_package_to_writer(&mut buf, &header_to_json(&header), payload);

    let pkg = read_package_from_bytes(&buf).unwrap();
    let back = header_from_json(&pkg.header_json);
    assert_eq!(back.name, "test-pkg");
    assert_eq!(back.version, "1.0.0");
    assert_eq!(back.depends, vec!["glibc"]);
    assert_eq!(pkg.raw_payload, payload);
    assert_eq!(back.description, header.description);
    assert_eq!(back.license, header.license);
    assert_eq!(back.provides, header.provides);
    assert_eq!(back.arch, header.arch);
    assert_eq!(back.release, header.release);
    assert_eq!(back.build_date, header.build_date);
}

#[test]
fn test_full_id() {
    let header = PackageHeader::new("nginx", "1.26.0", "x86_64");
    assert_eq!(header.full_id(), "nginx-1.26.0-r1");
}

#[test]
fn test_satisfies() {
    let mut header = PackageHeader::new("glibc", "2.39", "x86_64");
    header.provides = vec!["libc.so.6".into(), "glibc=2.39".into()];

    assert!(header.satisfies("glibc"));
    assert!(header.satisfies("libc.so.6"));
    assert!(!header.satisfies("nonexistent"));
}

#[test]
fn filename_follows_full_id() {
    let header = PackageHeader::new("nginx", "1.26.0", "x86_64");
    assert_eq!(header.filename(), "nginx-1.26.0-r1-x86_64.pag");
}

#[test]
fn satisfies_versioned_provide() {
    let mut header = PackageHeader::new("mesa", "24.0", "x86_64");
    header.provides = vec!["libgl=1.2".into()];
    assert!(header.satisfies("libgl"));
    assert!(header.satisfies("mesa"));
    assert!(!header.satisfies("libg"));
}

#[test]
fn known_digests() {
    assert_eq!(sha256(b"abc"), "ba7816bf8f01cfea414140de5dae2223b00361a396177a9cb410ff61f20015ad");
    assert_eq!(
        sha512(b"abc"),
        "ddaf35a193617abacc417349ae20413112e6fa4e89a97ea20a9eeee64b55d39a2192992a274fc1a836ba3c23a3feebbd454d4423643ce80e2a9ac94fa54ca49f"
    );
    assert_eq!(blake3(b""), "af1349b9f5f9a1a6a0404dea36dcc9499bcb25c9adc112b7cc9a93cae41f3262");
    assert_eq!(sha512(b"x").len(), 128);
}

#[test]
fn checksum_algorithm_name_in_any_case() {
    let data = b"payload";
    assert!(verify_checksum(data, &sha512(data), "SHA512"));
    assert!(verify_checksum(data, &blake3(data), "Blake3"));
    assert!(!verify_checksum(data, &sha256(data), "md5"));
    assert!(!verify_checksum(data, &sha256(data), "sha512"));
}

#[test]
fn version_order_is_reflexive_and_antisymmetric() {
    for (a, b) in [("1.2.3", "1.10"), ("2.0", "2.0.0"), ("v1.4", "1.4"), ("0.9b", "0.9")] {
        assert_eq!(compare_versions(a, a), Ordering::Equal);
        assert_eq!(compare_versions(a, b), compare_versions(b, a).reverse());
    }
    assert_eq!(compare_versions("v1.4", "1.4"), Ordering::Equal);
    assert_eq!(compare_versions("1.10", "1.9"), Ordering::Greater);
}

#[test]
fn version_order_is_not_transitive() {
    assert_eq!(compare_versions("1rc", "1"), Ordering::Less);
    assert_eq!(compare_versions("1", "10"), Ordering::Less);
    assert_eq!(compare_versions("10", "1rc"), Ordering::Less);
}

#[test]
fn requirement_relations() {
    for x in ["1.0", "1.5", "2.0"] {
        let gte = VersionReq::Gte("1.5".into()).matches(x);
        let gt = VersionReq::Gt("1.5".into()).matches(x);
        let eq = VersionReq::Eq("1.5".into()).matches(x);
        let lt = VersionReq::Lt("1.5".into()).matches(x);
        let lte = VersionReq::Lte("1.5".into()).matches(x);
        assert_eq!(gte, gt || eq);
        assert_eq!(lt, !gte);
        assert_eq!(lte, !gt);
        assert!(VersionReq::Any.matches(x));
    }
}

#[test]
fn dependency_operators() {
    let d = Dependency::parse(" libcurl<=8.0 ");
    assert_eq!(d.name, "libcurl");
    assert!(d.matches("8.0"));
    assert!(!d.matches("8.1"));
    let plain = Dependency::parse("zlib");
    assert_eq!(plain.name, "zlib");
    assert!(plain.version_req.is_none());
    assert!(plain.matches("0.0.1"));
    let eq = Dependency::parse("bash=5.2");
    assert!(eq.matches("5.2"));
    assert!(!eq.matches("5.3"));
}

#[test]
fn solver_orders_dependencies_first_and_reports_missing() {
    let mut solver = DepSolver::new();
    solver.add_available("app", info("1.0", &["lib", "ghost"]));
    solver.add_available("lib", info("2.0", &[]));
    let result = solver.solve(&["app".into()], true);
    assert_eq!(result.to_install, vec!["lib".to_string(), "app".to_string()]);
    assert_eq!(result.missing, vec!["ghost".to_string()]);
}

#[test]
fn solver_skips_satisfied_and_upgrades_old() {
    let mut solver = DepSolver::new();
    solver.add_installed("lib", "1.0");
    solver.add_available("lib", info("2.0", &[]));
    solver.add_available("app", info("1.0", &["lib>=1.0"]));
    let result = solver.solve(&["app".into()], true);
    assert_eq!(result.to_install, vec!["app".to_string()]);
    let up = solver.solve(&["lib".into()], true);
    assert_eq!(up.to_upgrade, vec![("lib".to_string(), "1.0".to_string(), "2.0".to_string())]);
}

#[test]
fn malformed_package_files() {
    assert_eq!(read_package_from_bytes(b"PAG").err(), Some(PackageFormatError::TooShort));
    assert_eq!(read_package_from_bytes(b"ZIP\x01\x00\x00\x00\x00").err(), Some(PackageFormatError::BadMagic));
    let mut buf = Vec::new();
    write_package_to_writer(&mut buf, b"{}", b"");
    buf.truncate(9);
    assert_eq!(read_package_from_bytes(&buf).err(), Some(PackageFormatError::TruncatedHeader));
}

#[test]
fn package_layout() {
    let mut buf = Vec::new();
    write_package_to_writer(&mut buf, b"{\"a\":1}", b"xyz");
    assert_eq!(&buf[0..4], b"PAG\x01");
    assert_eq!(&buf[4..8], &[7, 0, 0, 0]);
    assert_eq!(&buf[8..15], b"{\"a\":1}");
    assert_eq!(&buf[15..], b"xyz");
}

#[test]
fn payload_decompression() {
    let data = b"hello hello hello payload".to_vec();
    let mut gz = flate2::write::GzEncoder::new(Vec::new(), flate2::Compression::default());
    gz.write_all(&data).unwrap();
    let gz = gz.finish().unwrap();
    assert_eq!(decompress_payload(Compression::Gzip, &gz).unwrap(), data);

    let zs = zstd::encode_all(&data[..], 3).unwrap();
    assert_eq!(decompress_payload(Compression::Zstd, &zs).unwrap(), data);

    let mut xz = xz2::write::XzEncoder::new(Vec::new(), 6);
    xz.write_all(&data).unwrap();
    let xz = xz.finish().unwrap();
    assert_eq!(decompress_payload(Compression::Xz, &xz).unwrap(), data);

    assert_eq!(decompress_payload(Compression::Uncompressed, &data).unwrap(), data);
    let bad = decompress_payload(Compression::Gzip, b"not gzip").unwrap_err();
    assert_eq!(bad.compression, Compression::Gzip);
}

#[test]
fn archive_entry_destination() {
    assert_eq!(install_destination("/mnt/root//", "usr/bin/ls"), "/mnt/root/usr/bin/ls");
    assert_eq!(install_destination("/", "etc/pag"), "/etc/pag");
}

#[test]
fn test_version_comparison_unicode_letters() {
    // Letters outside ASCII belong to a part, like ASCII letters do.
    assert_eq!(compare_versions("1.é", "1.e"), Ordering::Greater);
    assert_eq!(compare_versions("1.ß", "1.ß"), Ordering::Equal);
    assert_eq!(compare_versions("1.2", "1.é"), Ordering::Less);
}

#[test]
fn test_version_epochs() {
    assert_eq!(compare_versions("1:1.0", "2.0"), Ordering::Greater);
    assert_eq!(compare_versions("2.0", "1:1.0"), Ordering::Less);
    assert_eq!(compare_versions("2:0.1", "1:9.9"), Ordering::Greater);
    assert_eq!(compare_versions("0:1.0", "1.0"), Ordering::Equal);
    assert_eq!(compare_versions("1:1.0", "1:1.1"), Ordering::Less);
    // A colon after something other than digits is no epoch.
    assert_eq!(compare_versions("a:1", "a.1"), Ordering::Equal);
}

#[test]
fn test_release_candidates_only() {
    assert_eq!(compare_versions("1.0rc1", "1.0"), Ordering::Less);
    assert_eq!(compare_versions("1.0", "1.0rc2"), Ordering::Greater);
    assert_eq!(compare_versions("1.1.1w", "1.1.1"), Ordering::Greater);
    // Only a numeric part followed by `rc` is a release candidate.
    assert_eq!(compare_versions("1.arc", "1.a"), Ordering::Greater);
}

#[test]
fn test_checksum_algorithm_case() {
    let data = b"test data";
    let expected = sha256(data);
    assert!(verify_checksum(data, &expected, "sha256"));
    assert!(verify_checksum(data, &expected, "SHA256"));
    assert!(!verify_checksum(data, &expected, "md5"));
}

fn info_with(version: &str, depends: &[&str], conflicts: &[&str]) -> PackageInfo {
    PackageInfo {
        version: version.into(),
        depends: depends.iter().map(|s| s.to_string()).collect(),
        provides: vec![],
        conflicts: conflicts.iter().map(|s| s.to_string()).collect(),
        repo: "core".into(),
        install_size: 0,
    }
}

#[test]
fn test_solver_upgrade_once() {
    let mut s = DepSolver::new();
    s.add_available("nginx", info_with("1.26.0", &["openssl>=3.0"], &[]));
    s.add_available("openssl", info_with("3.3.0", &[], &[]));
    s.add_installed("openssl", "1.1");
    let r = s.solve(&["nginx".to_string()], true);
    assert_eq!(r.to_install, vec!["nginx"]);
    assert_eq!(r.to_upgrade, vec![("openssl".to_string(), "1.1".to_string(), "3.3.0".to_string())]);
    assert!(r.missing.is_empty());
}

#[test]
fn test_solver_conflict_once() {
    let mut s = DepSolver::new();
    s.add_available("foo", info_with("1.0", &[], &["bar<2.0"]));
    s.add_installed("bar", "1.5");
    let r = s.solve(&["foo".to_string()], true);
    assert_eq!(r.conflicts, vec![("foo".to_string(), "bar=1.5".to_string())]);
    assert_eq!(r.to_install, vec!["foo"]);
}

#[test]
fn test_solver_missing_in_breadth_first_order() {
    let mut s = DepSolver::new();
    s.add_available("app", info("1.0", &["ghost2", "lib"]));
    s.add_available("lib", info("1.0", &["ghost1"]));
    let r = s.solve(&["app".to_string(), "ghost0".to_string()], true);
    assert_eq!(r.missing, vec!["ghost0".to_string(), "ghost2".to_string(), "ghost1".to_string()]);
}
