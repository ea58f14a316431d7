use std::collections::HashMap;
use std::io::Read;
use vstd::prelude::*;
use crate::text::{chars_of, concat, decimal, decimal_chars, find_char, has_prefix, index_of, starts_with, string_from};

verus! {

/// The bytes that open every `.pag` file.
pub const PAG_MAGIC: [u8; 4] = [0x50, 0x41, 0x47, 0x01];

/// The current version of the `.pag` format.
pub const PAG_FORMAT_VERSION: u32 = 1;

/// How a package payload is compressed.
#[derive(Debug, Clone, Copy, PartialEq, Eq, Structural)]
pub enum Compression {
    Zstd,
    Xz,
    Gzip,
    /// Stored as is.
    Uncompressed,
}

/// The kind of an entry in a package.
#[derive(Debug, Clone, PartialEq, Eq, Structural)]
pub enum FileType {
    File,
    Dir,
    Symlink,
    Hardlink,
}

/// One file of a package.
#[derive(Debug, Clone)]
pub struct FileEntry {
    pub path: String,
    pub size: u64,
    pub mode: u32,
    pub uid: u32,
    pub gid: u32,
    pub file_type: FileType,
    pub link_target: Option<String>,
    pub sha256: Option<String>,
}

/// The header of a `.pag` package.
#[derive(Debug, Clone)]
pub struct PackageHeader {
    pub format_version: u32,
    pub name: String,
    pub version: String,
    pub release: u32,
    pub description: String,
    pub url: Option<String>,
    pub arch: String,
    pub license: String,
    pub installed_size: u64,
    pub compressed_size: u64,
    pub compression: Compression,
    pub depends: Vec<String>,
    pub optdepends: Vec<String>,
    pub makedepends: Vec<String>,
    pub conflicts: Vec<String>,
    pub replaces: Vec<String>,
    pub provides: Vec<String>,
    pub required_by: Vec<String>,
    pub optional: Vec<String>,
    pub group: Option<String>,
    pub maintainer: Option<String>,
    pub build_date: i64,
    pub sha512: String,
    pub blake3: String,
    pub pgp_signature: Option<String>,
    pub files: Vec<FileEntry>,
    pub scripts: HashMap<String, String>,
    pub custom: HashMap<String, String>,
}

/// A package read from a `.pag` file.
pub struct Package {
    pub header: PackageHeader,
    /// The payload, still compressed.
    pub raw_payload: Vec<u8>,
}

/// An index of the packages of a repository.
#[derive(Debug, Clone)]
pub struct RepoIndex {
    pub version: u32,
    pub name: String,
    pub description: String,
    pub url: String,
    pub updated: i64,
    pub packages: Vec<RepoPackageEntry>,
}

/// One package of a repository index.
#[derive(Debug, Clone)]
pub struct RepoPackageEntry {
    pub name: String,
    pub version: String,
    pub release: u32,
    pub arch: String,
    pub description: String,
    pub installed_size: u64,
    pub compressed_size: u64,
    pub depends: Vec<String>,
    pub provides: Vec<String>,
    pub conflicts: Vec<String>,
    pub filename: String,
    pub sha512: String,
    pub blake3: String,
    pub pgp_signature: Option<String>,
}

/// The current time as seconds since the Unix epoch (`chrono::Utc::now().timestamp()`).
/// Nothing is stated of the value: it is the clock's.
#[verifier::external_body]
pub fn now_timestamp() -> (t: i64) {
    chrono::Utc::now().timestamp()
}

/// `name-version-rRELEASE`.
pub open spec fn full_id_of(name: Seq<char>, version: Seq<char>, release: u32) -> Seq<char> {
    name + seq!['-'] + version + seq!['-', 'r'] + decimal(release as nat)
}

/// `name-version-rRELEASE-arch.pag`.
pub open spec fn filename_of(name: Seq<char>, version: Seq<char>, release: u32, arch: Seq<char>) -> Seq<char> {
    full_id_of(name, version, release) + seq!['-'] + arch + seq!['.', 'p', 'a', 'g']
}

/// A provides entry `p` satisfies the dependency name `dep`: it is `dep`,
/// starts with `dep=`, or names `dep` before its first `=`.
pub open spec fn provide_satisfies(p: Seq<char>, dep: Seq<char>) -> bool {
    ||| p == dep
    ||| starts_with(p, dep + seq!['='])
    ||| (index_of(p, '=') matches Some(i) && p.subrange(0, i) == dep)
}

/// What `PackageHeader::satisfies` decides.
pub open spec fn header_satisfies(name: Seq<char>, provides: Seq<Seq<char>>, dep: Seq<char>) -> bool {
    dep == name || exists|j: int| 0 <= j < provides.len() && provide_satisfies(#[trigger] provides[j], dep)
}

/// A package satisfies a dependency on its own name and on each entry it
/// provides.
pub proof fn lemma_header_satisfies_provided(name: Seq<char>, provides: Seq<Seq<char>>, j: int)
    requires
        0 <= j < provides.len(),
    ensures
        header_satisfies(name, provides, name),
        header_satisfies(name, provides, provides[j]),
{
    assert(provide_satisfies(provides[j], provides[j]));
}

impl PackageHeader {
    /// A header with the given name, version and architecture, release 1,
    /// license "custom", zstd compression, built now, and nothing else set.
    pub fn new(name: &str, version: &str, arch: &str) -> (h: Self)
        ensures
            h.format_version == PAG_FORMAT_VERSION,
            h.name@ == name@,
            h.version@ == version@,
            h.arch@ == arch@,
            h.release == 1,
            h.description@ == Seq::<char>::empty(),
            h.url is None,
            h.license@ == seq!['c', 'u', 's', 't', 'o', 'm'],
            h.installed_size == 0,
            h.compressed_size == 0,
            h.compression == Compression::Zstd,
            h.depends@.len() == 0,
            h.optdepends@.len() == 0,
            h.makedepends@.len() == 0,
            h.conflicts@.len() == 0,
            h.replaces@.len() == 0,
            h.provides@.len() == 0,
            h.required_by@.len() == 0,
            h.optional@.len() == 0,
            h.group is None,
            h.maintainer is None,
            h.sha512@ == Seq::<char>::empty(),
            h.blake3@ == Seq::<char>::empty(),
            h.pgp_signature is None,
            h.files@.len() == 0,
            h.scripts@ == Map::<String, String>::empty(),
            h.custom@ == Map::<String, String>::empty(),
    {
        let license = vec!['c', 'u', 's', 't', 'o', 'm'];
        let h = PackageHeader {
            format_version: PAG_FORMAT_VERSION,
            name: string_from(&chars_of(name)),
            version: string_from(&chars_of(version)),
            release: 1,
            description: String::new(),
            url: None,
            arch: string_from(&chars_of(arch)),
            license: string_from(&license),
            installed_size: 0,
            compressed_size: 0,
            compression: Compression::Zstd,
            depends: Vec::new(),
            optdepends: Vec::new(),
            makedepends: Vec::new(),
            conflicts: Vec::new(),
            replaces: Vec::new(),
            provides: Vec::new(),
            required_by: Vec::new(),
            optional: Vec::new(),
            group: None,
            maintainer: None,
            build_date: now_timestamp(),
            sha512: String::new(),
            blake3: String::new(),
            pgp_signature: None,
            files: Vec::new(),
            scripts: HashMap::new(),
            custom: HashMap::new(),
        };
        assert(h.license@ =~= seq!['c', 'u', 's', 't', 'o', 'm']);
        h
    }

    /// The unique id of the package: `name-version-rRELEASE`.
    pub fn full_id(&self) -> (r: String)
        ensures
            r@ == full_id_of(self.name@, self.version@, self.release),
    {
        let a = concat(&chars_of(self.name.as_str()), &['-']);
        let b = concat(&a, &chars_of(self.version.as_str()));
        let c = concat(&b, &['-', 'r']);
        let d = concat(&c, &decimal_chars(self.release as u64));
        proof {
            assert(['-'].view() =~= seq!['-']);
            assert(['-', 'r'].view() =~= seq!['-', 'r']);
        }
        string_from(&d)
    }

    /// The file name of the package: `name-version-rRELEASE-arch.pag`.
    pub fn filename(&self) -> (r: String)
        ensures
            r@ == filename_of(self.name@, self.version@, self.release, self.arch@),
    {
        let id = chars_of(self.full_id().as_str());
        let a = concat(&id, &['-']);
        let b = concat(&a, &chars_of(self.arch.as_str()));
        let c = concat(&b, &['.', 'p', 'a', 'g']);
        proof {
            assert(['-'].view() =~= seq!['-']);
            assert(['.', 'p', 'a', 'g'].view() =~= seq!['.', 'p', 'a', 'g']);
        }
        string_from(&c)
    }

    /// Whether this package satisfies a dependency name: by its own name or
    /// through one of its provides.
    pub fn satisfies(&self, dep: &str) -> (r: bool)
        ensures
            r == header_satisfies(self.name@, crate::deps::strs(self.provides@), dep@),
    {
        let d = chars_of(dep);
        if crate::text::chars_eq(&d, &chars_of(self.name.as_str())) {
            return true;
        }
        let pat = concat(&d, &['=']);
        assert(['='].view() =~= seq!['=']);
        let mut j: usize = 0;
        while j < self.provides.len()
            invariant
                j <= self.provides@.len(),
                d@ == dep@,
                pat@ == dep@ + seq!['='],
                dep@ != self.name@,
                forall|k: int| 0 <= k < j ==> !provide_satisfies(#[trigger] crate::deps::strs(self.provides@)[k], dep@),
            decreases self.provides@.len() - j,
        {
            let p = chars_of(self.provides[j].as_str());
            assert(crate::deps::strs(self.provides@)[j as int] == p@);
            if crate::text::chars_eq(&p, &d) || has_prefix(&p, &pat) {
                assert(provide_satisfies(p@, dep@));
                return true;
            }
            if let Some(i) = find_char(&p, '=') {
                let before = crate::text::slice_chars(&p, 0, i);
                if crate::text::chars_eq(&before, &d) {
                    assert(provide_satisfies(p@, dep@));
                    return true;
                }
            }
            j = j + 1;
        }
        false
    }
}

// ───────────────────────── the `.pag` container ─────────────────────────

/// The four little-endian bytes of `n`.
pub open spec fn le32(n: u32) -> Seq<u8> {
    seq![
        (n % 256) as u8,
        ((n / 256) % 256) as u8,
        ((n / 65536) % 256) as u8,
        (n / 16777216) as u8,
    ]
}

/// The number the four little-endian bytes `b` encode.
pub open spec fn from_le32(b: Seq<u8>) -> nat {
    (b[0] as nat) + (b[1] as nat) * 256 + (b[2] as nat) * 65536 + (b[3] as nat) * 16777216
}

/// A `.pag` file: the magic, the header length as a little-endian `u32` (the
/// length modulo 2^32, as a `u32` cast keeps it), the header JSON, the payload.
pub open spec fn encode_package(header_json: Seq<u8>, payload: Seq<u8>) -> Seq<u8> {
    PAG_MAGIC@ + le32((header_json.len() % 0x1_0000_0000) as u32) + header_json + payload
}

/// Why bytes are not a `.pag` container.
#[derive(Debug, Clone, Copy, PartialEq, Eq, Structural)]
pub enum PackageFormatError {
    /// Fewer than 8 bytes: no room for the magic and the header length.
    TooShort,
    /// The first four bytes are not the magic.
    BadMagic,
    /// Fewer bytes than the header length declares.
    TruncatedHeader,
}

impl PackageFormatError {
    /// The message shown to the user.
    pub fn message(&self) -> (r: &'static str)
        ensures
            r@ == match *self {
                PackageFormatError::TooShort => "Plik za krótki na nagłówek .pag"@,
                PackageFormatError::BadMagic => "Nieprawidłowy magic: to nie jest plik .pag"@,
                PackageFormatError::TruncatedHeader => "Plik za krótki na zadeklarowany nagłówek"@,
            },
    {
        match self {
            PackageFormatError::TooShort => "Plik za krótki na nagłówek .pag",
            PackageFormatError::BadMagic => "Nieprawidłowy magic: to nie jest plik .pag",
            PackageFormatError::TruncatedHeader => "Plik za krótki na zadeklarowany nagłówek",
        }
    }
}

/// What `read_package_from_bytes` makes of bytes: the header JSON and the payload, or why not.
pub open spec fn decode_package(data: Seq<u8>) -> Result<(Seq<u8>, Seq<u8>), PackageFormatError> {
    if data.len() < 8 {
        Err(PackageFormatError::TooShort)
    } else if data.subrange(0, 4) != PAG_MAGIC@ {
        Err(PackageFormatError::BadMagic)
    } else if data.len() < 8 + from_le32(data.subrange(4, 8)) {
        Err(PackageFormatError::TruncatedHeader)
    } else {
        let n = from_le32(data.subrange(4, 8)) as int;
        Ok((data.subrange(8, 8 + n), data.subrange(8 + n, data.len() as int)))
    }
}

/// The bytes of a `.pag` file split into its parts.
pub struct RawPackage {
    pub header_json: Vec<u8>,
    pub raw_payload: Vec<u8>,
}

fn append_bytes(out: &mut Vec<u8>, b: &[u8])
    ensures
        final(out)@ == old(out)@ + b@,
{
    let mut i: usize = 0;
    while i < b.len()
        invariant
            i <= b.len(),
            out@ == old(out)@ + b@.take(i as int),
        decreases b.len() - i,
    {
        out.push(b[i]);
        assert(old(out)@ + b@.take(i as int).push(b@[i as int]) =~= old(out)@ + b@.take(i + 1));
        i = i + 1;
    }
    assert(b@.take(b.len() as int) =~= b@);
}

/// Writes a `.pag` container: magic, header length, header JSON, payload.
pub fn write_package_to_writer(writer: &mut Vec<u8>, header_json: &[u8], payload: &[u8])
    ensures
        final(writer)@ == old(writer)@ + encode_package(header_json@, payload@),
{
    let len = header_json.len();
    let size: u32 = ((len as u64) % 0x1_0000_0000u64) as u32;
    let size_bytes: [u8; 4] = [(size % 256) as u8, ((size / 256) % 256) as u8, ((size / 65536) % 256) as u8, (size / 16777216) as u8];
    let magic = PAG_MAGIC;
    append_bytes(writer, &magic);
    append_bytes(writer, &size_bytes);
    append_bytes(writer, header_json);
    append_bytes(writer, payload);
    proof {
        assert(size_bytes@ =~= le32((header_json@.len() % 0x1_0000_0000) as u32));
        assert(old(writer)@ + magic@ + size_bytes@ + header_json@ + payload@ =~= old(writer)@ + encode_package(header_json@, payload@));
    }
}

/// Splits the bytes of a `.pag` file into header JSON and payload.
pub fn read_package_from_bytes(data: &[u8]) -> (r: Result<RawPackage, PackageFormatError>)
    ensures
        match r {
            Ok(p) => decode_package(data@) == Ok::<(Seq<u8>, Seq<u8>), PackageFormatError>((p.header_json@, p.raw_payload@)),
            Err(e) => decode_package(data@) == Err::<(Seq<u8>, Seq<u8>), PackageFormatError>(e),
        },
{
    if data.len() < 8 {
        return Err(PackageFormatError::TooShort);
    }
    if data[0] != PAG_MAGIC[0] || data[1] != PAG_MAGIC[1] || data[2] != PAG_MAGIC[2] || data[3] != PAG_MAGIC[3] {
        assert(data@.subrange(0, 4) != PAG_MAGIC@) by {
            if data@.subrange(0, 4) == PAG_MAGIC@ {
                assert(data@.subrange(0, 4)[0] == data@[0]);
                assert(data@.subrange(0, 4)[1] == data@[1]);
                assert(data@.subrange(0, 4)[2] == data@[2]);
                assert(data@.subrange(0, 4)[3] == data@[3]);
            }
        }
        return Err(PackageFormatError::BadMagic);
    }
    assert(data@.subrange(0, 4) =~= PAG_MAGIC@);
    let n: u64 = data[4] as u64 + (data[5] as u64) * 256 + (data[6] as u64) * 65536 + (data[7] as u64) * 16777216;
    assert(n == from_le32(data@.subrange(4, 8)));
    if (data.len() as u64) < 8 + n {
        return Err(PackageFormatError::TruncatedHeader);
    }
    let n = n as usize;
    let mut header_json: Vec<u8> = Vec::new();
    let mut i: usize = 8;
    while i < 8 + n
        invariant
            8 <= i <= 8 + n <= data.len(),
            header_json@ == data@.subrange(8, i as int),
        decreases 8 + n - i,
    {
        header_json.push(data[i]);
        assert(data@.subrange(8, i as int).push(data@[i as int]) =~= data@.subrange(8, i + 1));
        i = i + 1;
    }
    let mut raw_payload: Vec<u8> = Vec::new();
    while i < data.len()
        invariant
            8 + n <= i <= data.len(),
            raw_payload@ == data@.subrange(8 + n, i as int),
        decreases data.len() - i,
    {
        raw_payload.push(data[i]);
        assert(data@.subrange(8 + n, i as int).push(data@[i as int]) =~= data@.subrange(8 + n, i + 1));
        i = i + 1;
    }
    Ok(RawPackage { header_json, raw_payload })
}

/// Reading back what was written gives the header JSON and payload back,
/// for every header shorter than 2^32 bytes.
pub proof fn lemma_package_roundtrip(header_json: Seq<u8>, payload: Seq<u8>)
    requires
        header_json.len() <= u32::MAX,
    ensures
        decode_package(encode_package(header_json, payload)) == Ok::<(Seq<u8>, Seq<u8>), PackageFormatError>((header_json, payload)),
{
    let data = encode_package(header_json, payload);
    let n = header_json.len();
    let size = (n % 0x1_0000_0000) as u32;
    assert(size == n);
    assert(data.subrange(0, 4) =~= PAG_MAGIC@);
    assert(data.subrange(4, 8) =~= le32(size));
    assert(from_le32(le32(size)) == size) by (nonlinear_arith)
        requires
            from_le32(le32(size)) == (size % 256) + ((size / 256) % 256) * 256 + ((size / 65536) % 256) * 65536 + (size / 16777216) * 16777216,
            size <= u32::MAX;
    assert(data.subrange(8, 8 + n as int) =~= header_json);
    assert(data.subrange(8 + n as int, data.len() as int) =~= payload);
}


// ───────────────────────── payload ─────────────────────────

/// What zstd decompression makes of `data`: the decompressed bytes, or none
/// when `data` is not a valid zstd stream (a name for what
/// `zstd::stream::read::Decoder` reads to the end).
pub uninterp spec fn zstd_decoded(data: Seq<u8>) -> Option<Seq<u8>>;

/// What xz decompression makes of `data` (a name for what `xz2::read::XzDecoder` reads).
pub uninterp spec fn xz_decoded(data: Seq<u8>) -> Option<Seq<u8>>;

/// What gzip decompression makes of `data` (a name for what `flate2::read::GzDecoder` reads).
pub uninterp spec fn gzip_decoded(data: Seq<u8>) -> Option<Seq<u8>>;

/// Reads a zstd stream to its end with `zstd::stream::read::Decoder`; a read
/// error becomes `None`. The result is named `zstd_decoded(data)`.
#[verifier::external_body]
fn zstd_decode(data: &[u8]) -> (r: Option<Vec<u8>>)
    ensures
        match r {
            Some(v) => zstd_decoded(data@) == Some(v@),
            None => zstd_decoded(data@) is None,
        },
{
    let decoder = match zstd::stream::read::Decoder::new(data) {
        Ok(d) => d,
        Err(_) => return None,
    };
    let mut out = Vec::new();
    match std::io::BufReader::new(decoder).read_to_end(&mut out) {
        Ok(_) => Some(out),
        Err(_) => None,
    }
}

/// Reads an xz stream to its end with `xz2::read::XzDecoder`; a read error
/// becomes `None`. The result is named `xz_decoded(data)`.
#[verifier::external_body]
fn xz_decode(data: &[u8]) -> (r: Option<Vec<u8>>)
    ensures
        match r {
            Some(v) => xz_decoded(data@) == Some(v@),
            None => xz_decoded(data@) is None,
        },
{
    let mut out = Vec::new();
    match xz2::read::XzDecoder::new(data).read_to_end(&mut out) {
        Ok(_) => Some(out),
        Err(_) => None,
    }
}

/// Reads a gzip stream to its end with `flate2::read::GzDecoder`; a read error
/// becomes `None`. The result is named `gzip_decoded(data)`.
#[verifier::external_body]
fn gzip_decode(data: &[u8]) -> (r: Option<Vec<u8>>)
    ensures
        match r {
            Some(v) => gzip_decoded(data@) == Some(v@),
            None => gzip_decoded(data@) is None,
        },
{
    let mut out = Vec::new();
    match flate2::read::GzDecoder::new(data).read_to_end(&mut out) {
        Ok(_) => Some(out),
        Err(_) => None,
    }
}

/// The payload of a package decompressed as its header says.
pub open spec fn decompressed(compression: Compression, raw: Seq<u8>) -> Option<Seq<u8>> {
    match compression {
        Compression::Zstd => zstd_decoded(raw),
        Compression::Xz => xz_decoded(raw),
        Compression::Gzip => gzip_decoded(raw),
        Compression::Uncompressed => Some(raw),
    }
}

/// A payload that could not be decompressed.
#[derive(Debug, Clone, Copy, PartialEq, Eq, Structural)]
pub struct DecompressError {
    pub compression: Compression,
}

/// Decompresses a package payload (`None` is taken as is).
pub fn decompress_payload(compression: Compression, raw: &[u8]) -> (r: Result<Vec<u8>, DecompressError>)
    ensures
        match r {
            Ok(v) => decompressed(compression, raw@) == Some(v@),
            Err(e) => decompressed(compression, raw@) is None && e.compression == compression,
        },
{
    let out = match compression {
        Compression::Zstd => zstd_decode(raw),
        Compression::Xz => xz_decode(raw),
        Compression::Gzip => gzip_decode(raw),
        Compression::Uncompressed => {
            let mut v: Vec<u8> = Vec::new();
            append_bytes(&mut v, raw);
            assert(v@ =~= raw@);
            Some(v)
        },
    };
    match out {
        Some(v) => Ok(v),
        None => Err(DecompressError { compression }),
    }
}

/// Where an archive entry is unpacked: `root` without trailing slashes, a
/// slash, then the entry's path.
pub open spec fn install_dest(root: Seq<char>, entry: Seq<char>) -> Seq<char> {
    crate::text::trim_end_char(root, '/') + seq!['/'] + entry
}

/// The destination of an archive entry under the installation root.
pub fn install_destination(root: &str, entry: &str) -> (r: String)
    ensures
        r@ == install_dest(root@, entry@),
{
    let a = crate::text::trim_end_matches(&chars_of(root), '/');
    let b = concat(&a, &['/']);
    let c = concat(&b, &chars_of(entry));
    assert(['/'].view() =~= seq!['/']);
    string_from(&c)
}

// ───────────────────────── repository index ─────────────────────────

pub(crate) fn clone_strings(v: &Vec<String>) -> (r: Vec<String>)
    ensures
        r@ == v@,
{
    let mut r: Vec<String> = Vec::new();
    let mut i: usize = 0;
    while i < v.len()
        invariant
            i <= v@.len(),
            r@ == v@.take(i as int),
        decreases v@.len() - i,
    {
        r.push(v[i].clone());
        assert(v@.take(i as int).push(v@[i as int]) =~= v@.take(i + 1));
        i = i + 1;
    }
    assert(v@.take(v@.len() as int) =~= v@);
    r
}

pub(crate) fn clone_opt(o: &Option<String>) -> (r: Option<String>)
    ensures
        r == *o,
{
    match o {
        Some(s) => Some(s.clone()),
        None => None,
    }
}

/// The index entry that describes a package with header `h`.
pub open spec fn entry_describes(e: RepoPackageEntry, h: PackageHeader) -> bool {
    &&& e.name@ == h.name@
    &&& e.version@ == h.version@
    &&& e.release == h.release
    &&& e.arch@ == h.arch@
    &&& e.description@ == h.description@
    &&& e.installed_size == h.installed_size
    &&& e.compressed_size == h.compressed_size
    &&& e.depends@ == h.depends@
    &&& e.provides@ == h.provides@
    &&& e.conflicts@ == h.conflicts@
    &&& e.filename@ == filename_of(h.name@, h.version@, h.release, h.arch@)
    &&& e.sha512@ == h.sha512@
    &&& e.blake3@ == h.blake3@
    &&& e.pgp_signature == h.pgp_signature
}

impl RepoPackageEntry {
    /// The index entry of a package.
    pub fn from_header(h: &PackageHeader) -> (e: RepoPackageEntry)
        ensures
            entry_describes(e, *h),
    {
        RepoPackageEntry {
            name: h.name.clone(),
            version: h.version.clone(),
            release: h.release,
            arch: h.arch.clone(),
            description: h.description.clone(),
            installed_size: h.installed_size,
            compressed_size: h.compressed_size,
            depends: clone_strings(&h.depends),
            provides: clone_strings(&h.provides),
            conflicts: clone_strings(&h.conflicts),
            filename: h.filename(),
            sha512: h.sha512.clone(),
            blake3: h.blake3.clone(),
            pgp_signature: clone_opt(&h.pgp_signature),
        }
    }
}

/// Builds the index of a repository from the headers of its packages, in
/// order, stamped with the current time.
pub fn generate_index(headers: &Vec<PackageHeader>, name: &str, description: &str, url: &str) -> (r: RepoIndex)
    ensures
        r.version == PAG_FORMAT_VERSION,
        r.name@ == name@,
        r.description@ == description@,
        r.url@ == url@,
        r.packages@.len() == headers@.len(),
        forall|i: int| 0 <= i < headers@.len() ==> entry_describes(#[trigger] r.packages@[i], headers@[i]),
{
    let mut packages: Vec<RepoPackageEntry> = Vec::new();
    let mut i: usize = 0;
    while i < headers.len()
        invariant
            i <= headers@.len(),
            packages@.len() == i,
            forall|k: int| 0 <= k < i ==> entry_describes(#[trigger] packages@[k], headers@[k]),
        decreases headers@.len() - i,
    {
        packages.push(RepoPackageEntry::from_header(&headers[i]));
        i = i + 1;
    }
    RepoIndex {
        version: PAG_FORMAT_VERSION,
        name: string_from(&chars_of(name)),
        description: string_from(&chars_of(description)),
        url: string_from(&chars_of(url)),
        updated: now_timestamp(),
        packages,
    }
}

} // verus!
