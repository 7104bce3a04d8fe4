//! Docker images and containers for backends.
//!
//! A server with an `install` config runs in a container of an image that is
//! built for it. The image carries the hash of the Dockerfile it was built
//! from, so that it is built again only when the config has changed.
use vstd::prelude::*;

use crate::backend::Launch;
use crate::config::{ExtractMethod, InstallConfig, InstallView, ServerConfig};
use crate::text::{cat, contains_sub, decimal_of, hex_of, join, pad_left, same_text, trim};
use crate::util::fnv1a;

verus! {

/// The label that carries the hash of the Dockerfile.
pub const HASH_LABEL: &'static str = "mcp-proxy.config-hash";

// ---------------------------------------------------------------------------
// Dockerfiles
// ---------------------------------------------------------------------------

/// The tag of a server's image.
pub open spec fn tag_of(name: Seq<char>) -> Seq<char> {
    "mcp-proxy/"@ + name
}

/// The tag of a server's image.
pub fn image_tag(name: &str) -> (r: String)
    ensures
        r@ == tag_of(name@),
{
    cat("mcp-proxy/", name)
}

/// The packages that the image needs.
pub open spec fn apt_packages(install: InstallView) -> Seq<Seq<char>> {
    match install {
        InstallView::Npm { .. } => seq!["ca-certificates"@],
        InstallView::Pip { .. } => seq!["ca-certificates"@, "python3"@, "python3-pip"@],
        InstallView::Binary { extract, .. } => if extract == Some(ExtractMethod::Zip) {
            seq!["ca-certificates"@, "curl"@, "unzip"@]
        } else {
            seq!["ca-certificates"@, "curl"@]
        },
        InstallView::Npx => seq!["ca-certificates"@],
    }
}

/// The step that downloads `url` to `dl`. A URL that refers to `${ARCH}` gets
/// the architecture of the target.
pub open spec fn download_step(url: Seq<char>, dl: Seq<char>) -> Seq<char> {
    if crate::text::contains_pat(url, "${ARCH}"@) {
        "\nARG TARGETARCH\nRUN ARCH=$(case \"${TARGETARCH}\" in \\\n      \"amd64\") echo \"x86_64\" ;; \\\n      \"arm64\") echo \"arm64\" ;; \\\n      *) echo \"x86_64\" ;; \\\n    esac) && \\\n    curl -fsSL \""@
            + url + "\" -o "@ + dl
    } else {
        "\nRUN curl -fsSL \""@ + url + "\" -o "@ + dl
    }
}

/// The step that unpacks `dl`, with `ex` to unpack into, and installs `binary`.
pub open spec fn unpack_step(
    extract: Option<ExtractMethod>,
    binary: Seq<char>,
    dl: Seq<char>,
    ex: Seq<char>,
) -> Seq<char> {
    match extract {
        Some(ExtractMethod::Tar) => " && \\\n    tar -xzf "@ + dl + " -C /usr/local/bin "@ + binary
            + " && \\\n    rm "@ + dl + " && chmod +x /usr/local/bin/"@ + binary + "\n"@,
        Some(ExtractMethod::Zip) => " && \\\n    unzip "@ + dl + " -d "@ + ex
            + " && \\\n    mv "@ + ex + "/"@ + binary + " /usr/local/bin/ && \\\n    rm -rf "@
            + dl + " "@ + ex + " && chmod +x /usr/local/bin/"@ + binary + "\n"@,
        _ => " && \\\n    mv "@ + dl + " /usr/local/bin/"@ + binary
            + " && chmod +x /usr/local/bin/"@ + binary + "\n"@,
    }
}

/// The steps that download and install a binary.
pub open spec fn binary_steps(
    url: Seq<char>,
    extract: Option<ExtractMethod>,
    binary: Seq<char>,
    dl: Seq<char>,
    ex: Seq<char>,
) -> Seq<char> {
    download_step(url, dl) + unpack_step(extract, binary, dl, ex)
}

/// Writes the steps that download and install a binary.
pub fn binary_install(
    url: &str,
    extract: Option<ExtractMethod>,
    binary: &str,
    dl: &str,
    ex: &str,
) -> (r: String)
    ensures
        r@ == binary_steps(url@, extract, binary@, dl@, ex@),
{
    let mut d: String = if contains_sub(url, "${ARCH}") {
        "\nARG TARGETARCH\nRUN ARCH=$(case \"${TARGETARCH}\" in \\\n      \"amd64\") echo \"x86_64\" ;; \\\n      \"arm64\") echo \"arm64\" ;; \\\n      *) echo \"x86_64\" ;; \\\n    esac) && \\\n    curl -fsSL \"".to_owned()
    } else {
        "\nRUN curl -fsSL \"".to_owned()
    };
    d.append(url);
    d.append("\" -o ");
    d.append(dl);
    let u = match extract {
        Some(ExtractMethod::Tar) => {
            let mut u = cat(" && \\\n    tar -xzf ", dl);
            u.append(" -C /usr/local/bin ");
            u.append(binary);
            u.append(" && \\\n    rm ");
            u.append(dl);
            u.append(" && chmod +x /usr/local/bin/");
            u.append(binary);
            u.append("\n");
            u
        },
        Some(ExtractMethod::Zip) => {
            let mut u = cat(" && \\\n    unzip ", dl);
            u.append(" -d ");
            u.append(ex);
            u.append(" && \\\n    mv ");
            u.append(ex);
            u.append("/");
            u.append(binary);
            u.append(" /usr/local/bin/ && \\\n    rm -rf ");
            u.append(dl);
            u.append(" ");
            u.append(ex);
            u.append(" && chmod +x /usr/local/bin/");
            u.append(binary);
            u.append("\n");
            u
        },
        _ => {
            let mut u = cat(" && \\\n    mv ", dl);
            u.append(" /usr/local/bin/");
            u.append(binary);
            u.append(" && chmod +x /usr/local/bin/");
            u.append(binary);
            u.append("\n");
            u
        },
    };
    d.append(u.as_str());
    d
}

/// The step that installs the server.
pub open spec fn install_step(install: InstallView) -> Seq<char> {
    match install {
        InstallView::Npm { package } => "\nRUN npm install -g "@ + package + "\n"@,
        InstallView::Pip { package } => "\nRUN pip3 install --break-system-packages "@ + package
            + "\n"@,
        InstallView::Binary { url, extract, binary } => binary_steps(
            url,
            extract,
            binary,
            "/tmp/dl"@,
            "/tmp/ex"@,
        ),
        InstallView::Npx => ""@,
    }
}

/// The Dockerfile of a server.
pub open spec fn dockerfile_of(install: InstallView, command: Seq<char>) -> Seq<char> {
    "FROM node:lts-slim\n\n"@
        + "RUN apt-get update && apt-get install -y --no-install-recommends \\\n    "@
        + crate::text::joined(apt_packages(install), " \\\n    "@)
        + " \\\n && rm -rf /var/lib/apt/lists/*\n"@ + install_step(install) + "\nENTRYPOINT [\""@
        + command + "\"]\n"@
}

fn packages_for(install: &InstallConfig) -> (r: Vec<String>)
    ensures
        crate::text::texts(r@) == apt_packages(install@),
{
    let mut apt: Vec<String> = Vec::new();
    apt.push("ca-certificates".to_owned());
    match install {
        InstallConfig::Pip { .. } => {
            apt.push("python3".to_owned());
            apt.push("python3-pip".to_owned());
        },
        InstallConfig::Binary { extract, .. } => {
            apt.push("curl".to_owned());
            if matches!(*extract, Some(ExtractMethod::Zip)) {
                apt.push("unzip".to_owned());
            }
        },
        _ => {},
    }
    assert(crate::text::texts(apt@) =~= apt_packages(install@));
    apt
}

/// Writes the Dockerfile of a server; a server without an `install` config has
/// none.
pub fn generate_dockerfile(cfg: &ServerConfig) -> (r: Option<String>)
    ensures
        r is Some == cfg@.install is Some,
        r matches Some(d) ==> d@ == dockerfile_of(cfg@.install->0, cfg@.command),
{
    let install: &InstallConfig = match &cfg.install {
        Some(i) => i,
        None => {
            return None;
        },
    };
    let apt = packages_for(install);
    let list = join(&apt, " \\\n    ");
    let step: String = match install {
        InstallConfig::Npm { package } => {
            let mut s = cat("\nRUN npm install -g ", package.as_str());
            s.append("\n");
            s
        },
        InstallConfig::Pip { package } => {
            let mut s = cat("\nRUN pip3 install --break-system-packages ", package.as_str());
            s.append("\n");
            s
        },
        InstallConfig::Binary { url, extract, binary } => binary_install(
            url.as_str(),
            *extract,
            binary.as_str(),
            "/tmp/dl",
            "/tmp/ex",
        ),
        InstallConfig::Npx => "".to_owned(),
    };
    let mut d = cat(
        "FROM node:lts-slim\n\n",
        "RUN apt-get update && apt-get install -y --no-install-recommends \\\n    ",
    );
    d.append(list.as_str());
    d.append(" \\\n && rm -rf /var/lib/apt/lists/*\n");
    d.append(step.as_str());
    d.append("\nENTRYPOINT [\"");
    d.append(cfg.command.as_str());
    d.append("\"]\n");
    Some(d)
}

// ---------------------------------------------------------------------------
// Images
// ---------------------------------------------------------------------------

/// The hash of a Dockerfile: sixteen hexadecimal digits.
pub open spec fn dockerfile_hash(dockerfile: Seq<char>) -> Seq<char> {
    crate::text::padded_left(
        crate::text::hex(crate::util::text_hash(dockerfile) as int),
        '0',
        16,
    )
}

/// The hash of a Dockerfile.
pub fn content_hash(dockerfile: &str) -> (r: String)
    ensures
        r@ == dockerfile_hash(dockerfile@),
{
    let digits = hex_of(fnv1a(dockerfile));
    pad_left(digits.as_str(), '0', 16)
}

/// The arguments of `docker` that read the hash from an image.
pub fn inspect_args(tag: &str) -> (r: Vec<String>)
    ensures
        crate::text::texts(r@) == seq![
            "inspect"@,
            "--format"@,
            "{{index .Config.Labels \"mcp-proxy.config-hash\"}}"@,
            tag@,
        ],
{
    let mut v: Vec<String> = Vec::new();
    v.push("inspect".to_owned());
    v.push("--format".to_owned());
    v.push("{{index .Config.Labels \"mcp-proxy.config-hash\"}}".to_owned());
    v.push(tag.to_owned());
    assert(crate::text::texts(v@) =~= seq![
        "inspect"@,
        "--format"@,
        "{{index .Config.Labels \"mcp-proxy.config-hash\"}}"@,
        tag@,
    ]);
    v
}

/// The hash that an image carries, given what reading it returned.
pub open spec fn label_read(success: bool, stdout: Seq<char>) -> Option<Seq<char>> {
    if success && crate::text::trimmed(stdout).len() > 0 {
        Some(crate::text::trimmed(stdout))
    } else {
        None
    }
}

/// The hash that an image carries, given what reading it returned.
pub fn image_hash(success: bool, stdout: &str) -> (r: Option<String>)
    ensures
        crate::text::opt_text(r) == label_read(success, stdout@),
{
    if !success {
        return None;
    }
    let s = trim(stdout);
    if s.as_str().unicode_len() == 0 {
        None
    } else {
        Some(s)
    }
}

/// How to build an image.
pub struct ImagePlan {
    /// The tag.
    pub tag: String,
    /// The arguments of `docker`.
    pub args: Vec<String>,
    /// The Dockerfile, to be read from the standard input.
    pub dockerfile: String,
}

/// What to do to have an image.
pub enum EnsureImage {
    /// The server has no `install` config.
    NoInstall(String),
    /// The image is there.
    UpToDate,
    /// The image has to be built.
    Build(ImagePlan),
}

/// The Dockerfile with the label that carries its hash.
pub open spec fn labelled(dockerfile: Seq<char>) -> Seq<char> {
    dockerfile + "\n"@ + "LABEL mcp-proxy.config-hash=\""@ + dockerfile_hash(dockerfile)
        + "\""@ + "\n"@
}

/// The image of a server is ensured: it is built if what there is was not built
/// from the same file.
pub open spec fn image_is_ensured(
    r: EnsureImage,
    name: Seq<char>,
    srv: crate::config::ServerView,
    existing: Option<Seq<char>>,
) -> bool {
    let d = dockerfile_of(srv.install->0, srv.command);
    match r {
        EnsureImage::NoInstall(m) => srv.install is None && m@
            == "no install config for "@ + name,
        EnsureImage::UpToDate => srv.install is Some && existing == Some(dockerfile_hash(d)),
        EnsureImage::Build(plan) => {
            &&& srv.install is Some
            &&& existing != Some(dockerfile_hash(d))
            &&& plan.tag@ == tag_of(name)
            &&& crate::text::texts(plan.args@) == seq![
                "build"@,
                "-t"@,
                tag_of(name),
                "-f"@,
                "-"@,
                "."@,
            ]
            &&& plan.dockerfile@ == labelled(d)
        },
    }
}

/// Decides whether the image of a server has to be built, given the hash that
/// the present image carries.
pub fn ensure_image(name: &str, cfg: &ServerConfig, existing: Option<&str>) -> (r: EnsureImage)
    ensures
        image_is_ensured(r, name@, cfg@, crate::text::opt_slice(existing)),
{
    let dockerfile = match generate_dockerfile(cfg) {
        Some(d) => d,
        None => {
            return EnsureImage::NoInstall(cat("no install config for ", name));
        },
    };
    let hash = content_hash(dockerfile.as_str());
    match existing {
        Some(e) => {
            if same_text(e, hash.as_str()) {
                return EnsureImage::UpToDate;
            }
        },
        None => {},
    }
    let tag = image_tag(name);
    let mut full = cat(dockerfile.as_str(), "\n");
    full.append("LABEL mcp-proxy.config-hash=\"");
    full.append(hash.as_str());
    full.append("\"");
    full.append("\n");
    let mut args: Vec<String> = Vec::new();
    args.push("build".to_owned());
    args.push("-t".to_owned());
    args.push(tag.clone());
    args.push("-f".to_owned());
    args.push("-".to_owned());
    args.push(".".to_owned());
    assert(crate::text::texts(args@) =~= seq![
        "build"@,
        "-t"@,
        tag_of(name@),
        "-f"@,
        "-"@,
        "."@,
    ]);
    EnsureImage::Build(ImagePlan { tag, args, dockerfile: full })
}

/// The message when a build fails.
pub fn build_error(name: &str, stderr: &str) -> (r: String)
    ensures
        r@ == "docker build failed for "@ + name@ + ":\n"@ + stderr@,
{
    let mut m = cat("docker build failed for ", name);
    m.append(":\n");
    m.append(stderr);
    m
}

// ---------------------------------------------------------------------------
// Containers
// ---------------------------------------------------------------------------

/// How many suffixes there are.
pub open spec fn suffixes() -> int {
    0x1_0000_0000
}

/// The suffix of a container's name: the hash of the process id and a counter,
/// added up and cut to 32 bits.
pub open spec fn suffix_of(pid: u32, seq: u64) -> int {
    (crate::util::text_hash(crate::text::decimal(pid as int)) + seq) % suffixes()
}

/// The suffix of a container's name. Counters less than 2^32 apart give
/// different suffixes.
pub fn unique_suffix(pid: u32, seq: u64) -> (r: u32)
    ensures
        r == suffix_of(pid, seq),
{
    let s = decimal_of(pid as u64);
    let hash: u64 = fnv1a(s.as_str());
    let mark: u64 = hash % 0x1_0000_0000;
    let place: u64 = seq % 0x1_0000_0000;
    proof {
        vstd::arithmetic::div_mod::lemma_add_mod_noop(hash as int, seq as int, suffixes());
    }
    ((mark + place) % 0x1_0000_0000) as u32
}

/// The name of a container.
pub open spec fn container_named(name: Seq<char>, suffix: u32) -> Seq<char> {
    "mcp-proxy-"@ + name + "-"@ + crate::text::padded_left(
        crate::text::hex(suffix as int),
        '0',
        8,
    )
}

/// The name of a container.
pub fn container_name(name: &str, suffix: u32) -> (r: String)
    ensures
        r@ == container_named(name@, suffix),
{
    let mut s = cat("mcp-proxy-", name);
    s.append("-");
    let digits = hex_of(suffix as u64);
    let padded = pad_left(digits.as_str(), '0', 8);
    s.append(padded.as_str());
    s
}

/// The arguments that pass variables to a container.
pub open spec fn env_flags(env: Seq<(Seq<char>, Seq<char>)>) -> Seq<Seq<char>>
    decreases env.len(),
{
    if env.len() == 0 {
        Seq::empty()
    } else {
        env_flags(env.drop_last()).push("-e"@).push(env.last().0 + "="@ + env.last().1)
    }
}

/// The arguments of `docker` that run a server's container.
pub open spec fn container_args(
    name: Seq<char>,
    suffix: u32,
    env: Seq<(Seq<char>, Seq<char>)>,
    args: Seq<Seq<char>>,
) -> Seq<Seq<char>> {
    seq!["run"@, "-i"@, "--rm"@, "--name"@, container_named(name, suffix)] + env_flags(env)
        + seq![tag_of(name)] + args
}

/// The arguments of `docker` that run a server's container: its input and
/// output are connected, it is removed when it exits, and it gets the
/// variables and arguments of the launch.
pub fn run_container(name: &str, launch: &Launch, suffix: u32) -> (r: Vec<String>)
    ensures
        crate::text::texts(r@) == container_args(
            name@,
            suffix,
            launch.env.pairs(),
            crate::text::texts(launch.args@),
        ),
{
    let ghost env = launch.env.pairs();
    let ghost head = seq!["run"@, "-i"@, "--rm"@, "--name"@, container_named(name@, suffix)];
    let mut v: Vec<String> = Vec::new();
    v.push("run".to_owned());
    v.push("-i".to_owned());
    v.push("--rm".to_owned());
    v.push("--name".to_owned());
    v.push(container_name(name, suffix));
    let n: usize = launch.env.len();
    let mut i: usize = 0;
    assert(crate::text::texts(v@) =~= head + env_flags(env.take(0)));
    while i < n
        invariant
            env == launch.env.pairs(),
            n == env.len(),
            i <= n,
            crate::text::texts(v@) == head + env_flags(env.take(i as int)),
        decreases n - i,
    {
        assert(env.take(i + 1).drop_last() =~= env.take(i as int));
        let ghost before = v@;
        let mut flag = cat(launch.env.name_at(i).as_str(), "=");
        flag.append(launch.env.value_at(i).as_str());
        let ghost added = flag@;
        v.push("-e".to_owned());
        v.push(flag);
        assert(crate::text::texts(v@) =~= crate::text::texts(before).push("-e"@).push(added));
        assert(head + env_flags(env.take(i as int)).push("-e"@).push(added) =~= (head + env_flags(
            env.take(i as int),
        )).push("-e"@).push(added));
        i = i + 1;
    }
    assert(env.take(n as int) =~= env);
    v.push(image_tag(name));
    let ghost front = crate::text::texts(v@);
    assert(front =~= head + env_flags(env) + seq![tag_of(name@)]);
    let ghost args = crate::text::texts(launch.args@);
    let mut i: usize = 0;
    assert(crate::text::texts(v@) =~= front + args.take(0));
    while i < launch.args.len()
        invariant
            args == crate::text::texts(launch.args@),
            i <= launch.args@.len(),
            crate::text::texts(v@) == front + args.take(i as int),
        decreases launch.args@.len() - i,
    {
        let ghost so_far = v@;
        v.push(launch.args[i].clone());
        assert(crate::text::texts(v@) =~= crate::text::texts(so_far).push(args[i as int]));
        assert(front + args.take(i + 1) =~= (front + args.take(i as int)).push(args[i as int]));
        i = i + 1;
    }
    assert(args.take(args.len() as int) =~= args);
    v
}

// ---------------------------------------------------------------------------
// Laws
// ---------------------------------------------------------------------------

/// The hash of a Dockerfile always has sixteen digits.
pub proof fn hash_has_sixteen_digits(dockerfile: Seq<char>)
    ensures
        dockerfile_hash(dockerfile).len() == 16,
{
    assert(crate::text::hex_bound(16) == 0x1_0000_0000_0000_0000) by {
        reveal_with_fuel(crate::text::hex_bound, 17);
    }
    crate::text::lemma_hex_len(crate::util::text_hash(dockerfile) as int, 16);
}

proof fn lemma_hex_is_solid(n: int)
    requires
        0 <= n,
    ensures
        forall|i: int|
            0 <= i < crate::text::hex(n).len() ==> !crate::text::is_space(
                #[trigger] crate::text::hex(n)[i],
            ),
    decreases n,
{
    if n >= 16 {
        lemma_hex_is_solid(n / 16);
        let front = crate::text::hex(n / 16);
        assert(crate::text::hex(n) == front.push(crate::text::digit(n % 16)));
    } else {
        assert(crate::text::hex(n) == seq![crate::text::digit(n)]);
    }
}

/// An image that was built is not built again: reading the label gives the hash
/// that it was built with.
pub proof fn built_image_is_up_to_date(dockerfile: Seq<char>)
    ensures
        label_read(true, dockerfile_hash(dockerfile) + "\n"@) == Some(dockerfile_hash(dockerfile)),
{
    reveal_strlit("\n");
    let h = dockerfile_hash(dockerfile);
    let n = crate::util::text_hash(dockerfile) as int;
    hash_has_sixteen_digits(dockerfile);
    lemma_hex_is_solid(n);
    let digits = crate::text::hex(n);
    assert forall|i: int| 0 <= i < 16 implies !crate::text::is_space(#[trigger] h[i]) by {
        let k = h.len() - digits.len();
        if i >= k {
            assert(h[i] == digits[i - k]);
        }
    }
    let s = h + "\n"@;
    assert(!crate::text::is_space(s[0]));
    assert(crate::text::trimmed_start(s) == s);
    assert(crate::text::is_space(s.last()));
    assert(s.drop_last() =~= h);
    assert(!crate::text::is_space(h.last()));
    reveal_with_fuel(crate::text::trimmed_end, 2);
    assert(crate::text::trimmed_end(s) == h);
}

/// A server whose Dockerfile has another hash than the present image gets a new
/// image: the hashes are told apart by their digits.
pub proof fn hashes_are_told_apart(a: Seq<char>, b: Seq<char>)
    requires
        crate::util::text_hash(a) != crate::util::text_hash(b),
    ensures
        dockerfile_hash(a) != dockerfile_hash(b),
{
    let m = crate::util::text_hash(a) as int;
    let n = crate::util::text_hash(b) as int;
    crate::text::lemma_hex_value(m, 16);
    crate::text::lemma_hex_value(n, 16);
}

/// Within one process, counters that are less than 2^32 apart give different
/// suffixes.
pub proof fn suffixes_do_not_collide(pid: u32, a: u64, b: u64)
    requires
        a != b,
        -suffixes() < a - b < suffixes(),
    ensures
        suffix_of(pid, a) != suffix_of(pid, b),
{
}

/// Two containers of one server, started by one process with counters that are
/// less than 2^32 apart, have different names.
pub proof fn containers_have_names_of_their_own(name: Seq<char>, pid: u32, a: u64, b: u64)
    requires
        a != b,
        -suffixes() < a - b < suffixes(),
    ensures
        container_named(name, suffix_of(pid, a) as u32) != container_named(
            name,
            suffix_of(pid, b) as u32,
        ),
{
    suffixes_do_not_collide(pid, a, b);
    let x = suffix_of(pid, a) as u32;
    let y = suffix_of(pid, b) as u32;
    crate::text::lemma_hex_value(x as int, 8);
    crate::text::lemma_hex_value(y as int, 8);
    let front = "mcp-proxy-"@ + name + "-"@;
    let s = container_named(name, x);
    let t = container_named(name, y);
    assert(s.subrange(front.len() as int, s.len() as int) =~= crate::text::padded_left(
        crate::text::hex(x as int),
        '0',
        8,
    ));
    assert(t.subrange(front.len() as int, t.len() as int) =~= crate::text::padded_left(
        crate::text::hex(y as int),
        '0',
        8,
    ));
}

/// The suffix of a container's name always has eight digits.
pub proof fn suffix_has_eight_digits(name: Seq<char>, suffix: u32)
    ensures
        container_named(name, suffix).len() == "mcp-proxy-"@.len() + name.len() + "-"@.len() + 8,
{
    assert(crate::text::hex_bound(8) == 0x1_0000_0000) by {
        reveal_with_fuel(crate::text::hex_bound, 9);
    }
    crate::text::lemma_hex_len(suffix as int, 8);
}

/// The flags of the environment are `-e` and `NAME=value` for each variable, in
/// order.
pub proof fn each_variable_has_its_flag(env: Seq<(Seq<char>, Seq<char>)>, k: int)
    ensures
        env_flags(env).len() == 2 * env.len(),
        0 <= k < env.len() ==> env_flags(env)[2 * k] == "-e"@ && env_flags(env)[2 * k + 1]
            == env[k].0 + "="@ + env[k].1,
    decreases env.len(),
{
    if env.len() > 0 {
        each_variable_has_its_flag(env.drop_last(), k);
    }
}

/// A container runs the image of its server with the variables before the image
/// and the arguments behind it.
pub proof fn container_runs_the_image(
    name: Seq<char>,
    suffix: u32,
    env: Seq<(Seq<char>, Seq<char>)>,
    args: Seq<Seq<char>>,
    k: int,
)
    ensures
        ({
            let r = container_args(name, suffix, env, args);
            let n = 5 + 2 * env.len();
            &&& r.len() == n + 1 + args.len()
            &&& r[0] == "run"@ && r[1] == "-i"@ && r[2] == "--rm"@ && r[3] == "--name"@
            &&& crate::text::begins(r[4], "mcp-proxy-"@ + name + "-"@)
            &&& 0 <= k < env.len() ==> r[5 + 2 * k] == "-e"@ && r[6 + 2 * k] == env[k].0 + "="@
                + env[k].1
            &&& r[n as int] == "mcp-proxy/"@ + name
            &&& 0 <= k < args.len() ==> r[n + 1 + k] == args[k]
        }),
{
    each_variable_has_its_flag(env, k);
    let r = container_args(name, suffix, env, args);
    let p = "mcp-proxy-"@ + name + "-"@;
    assert(container_named(name, suffix).subrange(0, p.len() as int) =~= p);
    if 0 <= k < env.len() {
        assert(r[5 + 2 * k] == env_flags(env)[2 * k]);
        assert(r[6 + 2 * k] == env_flags(env)[2 * k + 1]);
    }
}

proof fn lemma_step_stands(install: InstallView, command: Seq<char>, pat: Seq<char>)
    requires
        crate::text::contains_pat(install_step(install), pat),
    ensures
        crate::text::contains_pat(dockerfile_of(install, command), pat),
{
    let a = "FROM node:lts-slim\n\n"@
        + "RUN apt-get update && apt-get install -y --no-install-recommends \\\n    "@
        + crate::text::joined(apt_packages(install), " \\\n    "@)
        + " \\\n && rm -rf /var/lib/apt/lists/*\n"@;
    let b = "\nENTRYPOINT [\""@ + command + "\"]\n"@;
    assert(dockerfile_of(install, command) =~= a + install_step(install) + b);
    crate::text::lemma_stands_in_whole(a, install_step(install), b, pat);
}

/// The image of a server installs its package.
pub proof fn image_installs_the_package(package: Seq<char>, command: Seq<char>)
    ensures
        crate::text::contains_pat(
            dockerfile_of(InstallView::Npm { package }, command),
            "\nRUN npm install -g "@ + package + "\n"@,
        ),
        crate::text::contains_pat(
            dockerfile_of(InstallView::Pip { package }, command),
            "\nRUN pip3 install --break-system-packages "@ + package + "\n"@,
        ),
{
    let none = Seq::<char>::empty();
    let n = InstallView::Npm { package };
    let p = InstallView::Pip { package };
    assert(install_step(n) =~= none + install_step(n) + none);
    assert(install_step(p) =~= none + install_step(p) + none);
    crate::text::lemma_part_stands(none, install_step(n), none);
    crate::text::lemma_part_stands(none, install_step(p), none);
    lemma_step_stands(n, command, install_step(n));
    lemma_step_stands(p, command, install_step(p));
}

/// The image of a server starts its command.
pub proof fn image_starts_the_command(install: InstallView, command: Seq<char>)
    ensures
        crate::text::contains_pat(
            dockerfile_of(install, command),
            "\nENTRYPOINT [\""@ + command + "\"]\n"@,
        ),
        crate::text::begins(dockerfile_of(install, command), "FROM node:lts-slim\n\n"@),
{
    let first = "FROM node:lts-slim\n\n"@;
    let a = first + "RUN apt-get update && apt-get install -y --no-install-recommends \\\n    "@
        + crate::text::joined(apt_packages(install), " \\\n    "@)
        + " \\\n && rm -rf /var/lib/apt/lists/*\n"@ + install_step(install);
    let pat = "\nENTRYPOINT [\""@ + command + "\"]\n"@;
    let d = dockerfile_of(install, command);
    assert(d =~= a + pat + Seq::<char>::empty());
    crate::text::lemma_part_stands(a, pat, Seq::<char>::empty());
    assert(d.subrange(0, first.len() as int) =~= first);
}

/// The image has the tools that its installation needs.
pub proof fn image_has_what_installing_needs(install: InstallView, command: Seq<char>)
    ensures
        crate::text::contains_pat(dockerfile_of(install, command), "ca-certificates"@),
        install is Pip ==> crate::text::contains_pat(
            dockerfile_of(install, command),
            "python3-pip"@,
        ),
        install is Binary ==> crate::text::contains_pat(dockerfile_of(install, command), "curl"@),
        install matches InstallView::Binary { extract: Some(ExtractMethod::Zip), .. }
            ==> crate::text::contains_pat(dockerfile_of(install, command), "unzip"@),
{
    let list = apt_packages(install);
    let sep = " \\\n    "@;
    let j = crate::text::joined(list, sep);
    let a = "FROM node:lts-slim\n\n"@
        + "RUN apt-get update && apt-get install -y --no-install-recommends \\\n    "@;
    let b = " \\\n && rm -rf /var/lib/apt/lists/*\n"@ + install_step(install)
        + "\nENTRYPOINT [\""@ + command + "\"]\n"@;
    assert(dockerfile_of(install, command) =~= a + j + b);
    crate::text::joined_holds_each_part(list, sep, 0);
    crate::text::lemma_stands_in_whole(a, j, b, "ca-certificates"@);
    if install is Pip {
        crate::text::joined_holds_each_part(list, sep, 2);
        crate::text::lemma_stands_in_whole(a, j, b, "python3-pip"@);
    }
    if install is Binary {
        crate::text::joined_holds_each_part(list, sep, 1);
        crate::text::lemma_stands_in_whole(a, j, b, "curl"@);
    }
    if install matches InstallView::Binary { extract: Some(ExtractMethod::Zip), .. } {
        crate::text::joined_holds_each_part(list, sep, 2);
        crate::text::lemma_stands_in_whole(a, j, b, "unzip"@);
    }
}

/// The steps for a binary fetch its URL and leave it, to be run, where programs
/// are; an archive is unpacked by its kind.
pub proof fn binary_is_fetched_and_put_in_place(
    url: Seq<char>,
    extract: Option<ExtractMethod>,
    binary: Seq<char>,
    dl: Seq<char>,
    ex: Seq<char>,
)
    ensures
        ({
            let s = binary_steps(url, extract, binary, dl, ex);
            &&& crate::text::contains_pat(s, "curl -fsSL \""@ + url + "\" -o "@ + dl)
            &&& crate::text::contains_pat(s, "chmod +x /usr/local/bin/"@ + binary)
            &&& extract == Some(ExtractMethod::Tar) ==> crate::text::contains_pat(
                s,
                "tar -xzf "@ + dl,
            )
            &&& extract == Some(ExtractMethod::Zip) ==> crate::text::contains_pat(s, "unzip "@ + dl)
        }),
{
    lemma_fetched(url, dl);
    let d = download_step(url, dl);
    let u = unpack_step(extract, binary, dl, ex);
    let none = Seq::<char>::empty();
    let s = binary_steps(url, extract, binary, dl, ex);
    assert(s =~= none + d + u);
    assert(s =~= d + u + none);
    crate::text::lemma_stands_in_whole(none, d, u, "curl -fsSL \""@ + url + "\" -o "@ + dl);
    lemma_put_in_place(extract, binary, dl, ex);
    crate::text::lemma_stands_in_whole(d, u, none, "chmod +x /usr/local/bin/"@ + binary);
    lemma_unpacked(binary, dl, ex);
    if extract == Some(ExtractMethod::Tar) {
        crate::text::lemma_stands_in_whole(d, u, none, "tar -xzf "@ + dl);
    }
    if extract == Some(ExtractMethod::Zip) {
        crate::text::lemma_stands_in_whole(d, u, none, "unzip "@ + dl);
    }
}

proof fn lemma_fetched(url: Seq<char>, dl: Seq<char>)
    ensures
        crate::text::contains_pat(
            download_step(url, dl),
            "curl -fsSL \""@ + url + "\" -o "@ + dl,
        ),
{
    let pat = "curl -fsSL \""@ + url + "\" -o "@ + dl;
    let none = Seq::<char>::empty();
    let x = "\nARG TARGETARCH\nRUN ARCH=$(case \"${TARGETARCH}\" in \\\n      \"amd64\") echo \"x86_64\" ;; \\\n      \"arm64\") echo \"arm64\" ;; \\\n      *) echo \"x86_64\" ;; \\\n    esac) && \\\n    curl -fsSL \""@;
    let y = "\nRUN curl -fsSL \""@;
    lemma_ends_in_fetch();
    let m = "curl -fsSL \""@.len() as int;
    if crate::text::contains_pat(url, "${ARCH}"@) {
        let h = x.subrange(0, x.len() - m);
        assert(x =~= h + "curl -fsSL \""@);
        assert(download_step(url, dl) =~= h + pat + none);
        crate::text::lemma_part_stands(h, pat, none);
    } else {
        let h = y.subrange(0, y.len() - m);
        assert(y =~= h + "curl -fsSL \""@);
        assert(download_step(url, dl) =~= h + pat + none);
        crate::text::lemma_part_stands(h, pat, none);
    }
}

proof fn lemma_ends_in_fetch()
    ensures
        ({
            let c = "curl -fsSL \""@;
            let x = "\nARG TARGETARCH\nRUN ARCH=$(case \"${TARGETARCH}\" in \\\n      \"amd64\") echo \"x86_64\" ;; \\\n      \"arm64\") echo \"arm64\" ;; \\\n      *) echo \"x86_64\" ;; \\\n    esac) && \\\n    curl -fsSL \""@;
            let y = "\nRUN curl -fsSL \""@;
            &&& x.len() >= c.len() && x.subrange(x.len() - c.len(), x.len() as int) == c
            &&& y.len() >= c.len() && y.subrange(y.len() - c.len(), y.len() as int) == c
        }),
{
    reveal_strlit("curl -fsSL \"");
    reveal_strlit("\nRUN curl -fsSL \"");
    reveal_strlit("\nARG TARGETARCH\nRUN ARCH=$(case \"${TARGETARCH}\" in \\\n      \"amd64\") echo \"x86_64\" ;; \\\n      \"arm64\") echo \"arm64\" ;; \\\n      *) echo \"x86_64\" ;; \\\n    esac) && \\\n    curl -fsSL \"");
    let c = "curl -fsSL \""@;
    let x = "\nARG TARGETARCH\nRUN ARCH=$(case \"${TARGETARCH}\" in \\\n      \"amd64\") echo \"x86_64\" ;; \\\n      \"arm64\") echo \"arm64\" ;; \\\n      *) echo \"x86_64\" ;; \\\n    esac) && \\\n    curl -fsSL \""@;
    let y = "\nRUN curl -fsSL \""@;
    assert(x.subrange(x.len() - c.len(), x.len() as int) =~= c);
    assert(y.subrange(y.len() - c.len(), y.len() as int) =~= c);
}

proof fn lemma_put_in_place(
    extract: Option<ExtractMethod>,
    binary: Seq<char>,
    dl: Seq<char>,
    ex: Seq<char>,
)
    ensures
        crate::text::contains_pat(
            unpack_step(extract, binary, dl, ex),
            "chmod +x /usr/local/bin/"@ + binary,
        ),
{
    reveal_strlit(" && chmod +x /usr/local/bin/");
    reveal_strlit("chmod +x /usr/local/bin/");
    let pat = "chmod +x /usr/local/bin/"@ + binary;
    assert(" && chmod +x /usr/local/bin/"@ =~= " && "@ + "chmod +x /usr/local/bin/"@) by {
        reveal_strlit(" && ");
    }
    let u = unpack_step(extract, binary, dl, ex);
    let n = u.len() - pat.len() - "\n"@.len();
    let h = u.subrange(0, n);
    assert(u =~= h + pat + "\n"@);
    crate::text::lemma_part_stands(h, pat, "\n"@);
}

proof fn lemma_unpacked(binary: Seq<char>, dl: Seq<char>, ex: Seq<char>)
    ensures
        crate::text::contains_pat(
            unpack_step(Some(ExtractMethod::Tar), binary, dl, ex),
            "tar -xzf "@ + dl,
        ),
        crate::text::contains_pat(
            unpack_step(Some(ExtractMethod::Zip), binary, dl, ex),
            "unzip "@ + dl,
        ),
{
    reveal_strlit(" && \\\n    tar -xzf ");
    reveal_strlit("tar -xzf ");
    reveal_strlit(" && \\\n    unzip ");
    reveal_strlit("unzip ");
    reveal_strlit(" && \\\n    ");
    let lead = " && \\\n    "@;
    assert(" && \\\n    tar -xzf "@ =~= lead + "tar -xzf "@);
    assert(" && \\\n    unzip "@ =~= lead + "unzip "@);
    let t = unpack_step(Some(ExtractMethod::Tar), binary, dl, ex);
    let z = unpack_step(Some(ExtractMethod::Zip), binary, dl, ex);
    let p = "tar -xzf "@ + dl;
    let q = "unzip "@ + dl;
    let m = lead.len() as int;
    let tr = t.subrange(m + p.len(), t.len() as int);
    let zr = z.subrange(m + q.len(), z.len() as int);
    assert(t =~= lead + p + tr);
    assert(z =~= lead + q + zr);
    crate::text::lemma_part_stands(lead, p, tr);
    crate::text::lemma_part_stands(lead, q, zr);
}

/// The label of an image is read if and only if the call succeeded and said
/// something: white space around it does not count.
pub proof fn label_is_what_was_said(
    left: Seq<char>,
    label: Seq<char>,
    right: Seq<char>,
    success: bool,
)
    requires
        forall|i: int| 0 <= i < left.len() ==> crate::text::is_space(#[trigger] left[i]),
        forall|i: int| 0 <= i < right.len() ==> crate::text::is_space(#[trigger] right[i]),
        label.len() > 0 ==> !crate::text::is_space(label[0]) && !crate::text::is_space(
            label[label.len() - 1],
        ),
    ensures
        label_read(success, left + label + right) == (if success && label.len() > 0 {
            Some(label)
        } else {
            None
        }),
{
    crate::text::trimming_takes_only_white_space(left, label, right);
}

/// The labelled file is the file with its hash behind it.
pub proof fn label_says_the_hash(dockerfile: Seq<char>)
    ensures
        crate::text::begins(labelled(dockerfile), dockerfile),
        crate::text::contains_pat(
            labelled(dockerfile),
            "LABEL mcp-proxy.config-hash=\""@ + dockerfile_hash(dockerfile) + "\""@,
        ),
{
    let l = labelled(dockerfile);
    assert(l.subrange(0, dockerfile.len() as int) =~= dockerfile);
    let pat = "LABEL mcp-proxy.config-hash=\""@ + dockerfile_hash(dockerfile) + "\""@;
    assert(l =~= (dockerfile + "\n"@) + pat + "\n"@);
    crate::text::lemma_part_stands(dockerfile + "\n"@, pat, "\n"@);
}

/// The images of different servers have different names.
pub proof fn images_are_told_apart(a: Seq<char>, b: Seq<char>)
    ensures
        tag_of(a) == tag_of(b) <==> a == b,
        crate::text::begins(tag_of(a), "mcp-proxy/"@),
{
    let p = "mcp-proxy/"@;
    let n = p.len() as int;
    assert(tag_of(a).subrange(n, tag_of(a).len() as int) =~= a);
    assert(tag_of(b).subrange(n, tag_of(b).len() as int) =~= b);
    assert(tag_of(a).subrange(0, n) =~= p);
}

/// An image is built if and only if the server is to be installed and what there
/// is was not built from the file of today; what is built carries the hash of
/// that file, so that it is up to date afterwards.
pub proof fn images_are_built_when_they_changed(
    r: EnsureImage,
    again: EnsureImage,
    name: Seq<char>,
    srv: crate::config::ServerView,
    existing: Option<Seq<char>>,
)
    requires
        image_is_ensured(r, name, srv, existing),
        srv.install is Some ==> image_is_ensured(
            again,
            name,
            srv,
            Some(dockerfile_hash(dockerfile_of(srv.install->0, srv.command))),
        ),
    ensures
        r is NoInstall == srv.install is None,
        r is Build == (srv.install is Some && existing != Some(
            dockerfile_hash(dockerfile_of(srv.install->0, srv.command)),
        )),
        srv.install is Some ==> again is UpToDate,
        r matches EnsureImage::Build(plan) ==> plan.tag@ == tag_of(name) && crate::text::texts(
            plan.args@,
        ).contains(tag_of(name)) && crate::text::begins(
            plan.dockerfile@,
            dockerfile_of(srv.install->0, srv.command),
        ) && crate::text::contains_pat(
            plan.dockerfile@,
            dockerfile_hash(dockerfile_of(srv.install->0, srv.command)),
        ),
{
    match r {
        EnsureImage::Build(plan) => {
            let d = dockerfile_of(srv.install->0, srv.command);
            assert(crate::text::texts(plan.args@)[2] == tag_of(name));
            label_says_the_hash(d);
            let a = d + "\n"@ + "LABEL mcp-proxy.config-hash=\""@;
            let b = "\""@ + "\n"@;
            assert(labelled(d) =~= a + dockerfile_hash(d) + b);
            crate::text::lemma_part_stands(a, dockerfile_hash(d), b);
        },
        _ => {},
    }
}

} // verus!
