use mcp_proxy::backend::Launch;
use mcp_proxy::config::{Config, CustomToolConfig, ExtractMethod, InstallConfig, ServerConfig};
use mcp_proxy::custom_tools::{
    CustomCall, CustomTools, args_as_texts, shell_result, substitute, substitute_value,
    text_content,
};
use mcp_proxy::docker::{
    EnsureImage, binary_install, build_error, container_name, content_hash, ensure_image,
    generate_dockerfile, image_hash, image_tag, inspect_args, run_container, unique_suffix,
};
use mcp_proxy::generate::{dockerfile, env_example};
use mcp_proxy::json::Json;
use mcp_proxy::names::NameMap;
use mcp_proxy::util::fnv1a;

fn names(pairs: &[(&str, &str)]) -> NameMap<String> {
    let mut m: NameMap<String> = NameMap::new();
    for (k, v) in pairs {
        m.insert(k.to_string(), v.to_string());
    }
    m
}

fn value(text: &str) -> Json {
    Json::parse(text).unwrap()
}

fn shell(command: &str, toggle: Option<&str>) -> CustomToolConfig {
    CustomToolConfig::Shell {
        description: "Ping a host".to_string(),
        input_schema: value(r#"{"type":"object"}"#),
        command: command.to_string(),
        env_toggle: toggle.map(String::from),
    }
}

fn tools(list: Vec<(&str, CustomToolConfig)>, env: &NameMap<String>) -> CustomTools {
    let mut m: NameMap<CustomToolConfig> = NameMap::new();
    for (k, v) in list {
        m.insert(k.to_string(), v);
    }
    CustomTools::new(&m, env)
}

#[test]
fn custom_tools_are_listed_with_their_prefix() {
    let env = names(&[("OFF", "0")]);
    let t = tools(
        vec![("ping", shell("ping {{host}}", None)), ("off", shell("x", Some("OFF")))],
        &env,
    );
    let list = t.list();
    assert_eq!(list.len(), 1);
    assert_eq!(list[0].name, "custom_ping");
    assert_eq!(list[0].original_name, "ping");
    assert_eq!(list[0].description, Some("Ping a host".to_string()));
    assert!(t.has("custom_ping"));
    assert!(t.has("ping"));
    assert!(!t.has("custom_off"));
}

#[test]
fn shell_tools_are_substituted() {
    let env = names(&[("HOME", "/home/u")]);
    let t = tools(vec![("ping", shell("ping -c {{count}} {{host}} ${HOME}", None))], &env);
    match t.call("custom_ping", &value(r#"{"host":"a.b","count":3}"#), &env, 100) {
        CustomCall::Shell { command } => assert_eq!(command, "ping -c 3 a.b /home/u"),
        _ => panic!("expected a command"),
    }
    match t.call("custom_nope", &value("{}"), &env, 100) {
        CustomCall::Unknown(m) => assert_eq!(m, "unknown custom tool: custom_nope"),
        _ => panic!("expected no tool"),
    }
    match t.call("custom_ping", &value(r#"{"host":"{{host}}${HOME}"}"#), &env, 100) {
        CustomCall::Shell { command } => {
            assert_eq!(command, "ping -c {{count}} {{host}}${HOME} /home/u");
        }
        _ => panic!("expected a command"),
    }
    let endless = names(&[("HOME", "${HOME}")]);
    match t.call("custom_ping", &value("{}"), &endless, 100) {
        CustomCall::Unsettled => {}
        _ => panic!("expected no end"),
    }
}

#[test]
fn http_tools_are_substituted() {
    let tool = CustomToolConfig::Http {
        description: "d".to_string(),
        input_schema: Json::Null,
        url: "https://x/?q=${q}".to_string(),
        method: Some("POST".to_string()),
        headers: Some(names(&[("authorization", "Bearer ${KEY}")])),
        body: Some(value(r#"{"q":["${q}",1,null]}"#)),
        env_toggle: None,
    };
    let env = names(&[("KEY", "k")]);
    let t = tools(vec![("look", tool)], &env);
    match t.call("custom_look", &value(r#"{"q":"z"}"#), &env, 100) {
        CustomCall::Http { method, url, headers, body } => {
            assert_eq!(method, "POST");
            assert_eq!(url, "https://x/?q=z");
            assert_eq!(headers.get("authorization").unwrap(), "Bearer k");
            assert_eq!(body.unwrap().to_text(), r#"{"q":["z",1,null]}"#);
        }
        _ => panic!("expected a request"),
    }
}

#[test]
fn a_get_request_has_no_body() {
    let tool = CustomToolConfig::Http {
        description: "d".to_string(),
        input_schema: Json::Null,
        url: "u".to_string(),
        method: None,
        headers: None,
        body: Some(value("1")),
        env_toggle: None,
    };
    let none = names(&[]);
    let t = tools(vec![("look", tool)], &none);
    match t.call("look", &value("null"), &none, 100) {
        CustomCall::Http { method, body, .. } => {
            assert_eq!(method, "GET");
            assert!(body.is_none());
        }
        _ => panic!("expected a request"),
    }
}

#[test]
fn substitution() {
    let none = names(&[]);
    let args = args_as_texts(&value(r#"{"s":"t","n":1.5,"o":{"a":1},"b":true}"#));
    assert_eq!(args.get("s").unwrap(), "t");
    assert_eq!(args.get("n").unwrap(), "1.5");
    assert_eq!(args.get("o").unwrap(), "{\"a\":1}");
    assert_eq!(args.get("b").unwrap(), "true");
    assert!(args_as_texts(&value("[1]")).is_empty());
    assert_eq!(substitute("{{s}}-${s}-${gone}", &args, &none, 10).unwrap(), "t-t-");
    assert_eq!(substitute("plain", &args, &none, 0).unwrap(), "plain");
    assert_eq!(substitute("{{.State}} {{{s}}}", &args, &none, 0).unwrap(), "{{.State}} {t}");
    let env = names(&[("gone", "e")]);
    assert_eq!(substitute("{{gone}} ${gone}", &args, &env, 1).unwrap(), "{{gone}} e");
    assert_eq!(
        substitute_value(&value(r#"["${s}",2,{"k":"{{s}}"}]"#), &args, &none, 10)
            .unwrap()
            .to_text(),
        r#"["t",2,{"k":"t"}]"#
    );
}

#[test]
fn results_of_commands() {
    assert_eq!(
        shell_result("out", "err").to_text(),
        r#"{"content":[{"text":"out","type":"text"}]}"#
    );
    assert_eq!(
        shell_result("", "err").to_text(),
        r#"{"content":[{"text":"err","type":"text"}]}"#
    );
    assert_eq!(text_content("x").to_text(), r#"{"content":[{"text":"x","type":"text"}]}"#);
}

// ---------------------------------------------------------------------------
// Docker
// ---------------------------------------------------------------------------

fn installed(install: InstallConfig) -> ServerConfig {
    ServerConfig { install: Some(install), command: "srv".to_string(), ..Default::default() }
}

#[test]
fn dockerfile_of_an_npm_server() {
    let cfg = installed(InstallConfig::Npm { package: "@x/y".to_string() });
    assert_eq!(
        generate_dockerfile(&cfg).unwrap(),
        "FROM node:lts-slim\n\nRUN apt-get update && apt-get install -y --no-install-recommends \\\n    ca-certificates \\\n && rm -rf /var/lib/apt/lists/*\n\nRUN npm install -g @x/y\n\nENTRYPOINT [\"srv\"]\n"
    );
    assert!(generate_dockerfile(&ServerConfig::default()).is_none());
}

#[test]
fn dockerfile_of_a_pip_server() {
    let cfg = installed(InstallConfig::Pip { package: "p".to_string() });
    assert_eq!(
        generate_dockerfile(&cfg).unwrap(),
        "FROM node:lts-slim\n\nRUN apt-get update && apt-get install -y --no-install-recommends \\\n    ca-certificates \\\n    python3 \\\n    python3-pip \\\n && rm -rf /var/lib/apt/lists/*\n\nRUN pip3 install --break-system-packages p\n\nENTRYPOINT [\"srv\"]\n"
    );
}

#[test]
fn dockerfile_of_a_zipped_binary() {
    let cfg = installed(InstallConfig::Binary {
        url: "https://x/y.zip".to_string(),
        extract: Some(ExtractMethod::Zip),
        binary: "b".to_string(),
    });
    assert_eq!(
        generate_dockerfile(&cfg).unwrap(),
        "FROM node:lts-slim\n\nRUN apt-get update && apt-get install -y --no-install-recommends \\\n    ca-certificates \\\n    curl \\\n    unzip \\\n && rm -rf /var/lib/apt/lists/*\n\nRUN curl -fsSL \"https://x/y.zip\" -o /tmp/dl && \\\n    unzip /tmp/dl -d /tmp/ex && \\\n    mv /tmp/ex/b /usr/local/bin/ && \\\n    rm -rf /tmp/dl /tmp/ex && chmod +x /usr/local/bin/b\n\nENTRYPOINT [\"srv\"]\n"
    );
}

#[test]
fn binaries_by_architecture() {
    assert_eq!(
        binary_install("https://x/${ARCH}.tgz", Some(ExtractMethod::Tar), "b", "/tmp/dl", "/tmp/ex"),
        "\nARG TARGETARCH\nRUN ARCH=$(case \"${TARGETARCH}\" in \\\n      \"amd64\") echo \"x86_64\" ;; \\\n      \"arm64\") echo \"arm64\" ;; \\\n      *) echo \"x86_64\" ;; \\\n    esac) && \\\n    curl -fsSL \"https://x/${ARCH}.tgz\" -o /tmp/dl && \\\n    tar -xzf /tmp/dl -C /usr/local/bin b && \\\n    rm /tmp/dl && chmod +x /usr/local/bin/b\n"
    );
    assert_eq!(
        binary_install("u", None, "b", "/tmp/dl", "/tmp/ex"),
        "\nRUN curl -fsSL \"u\" -o /tmp/dl && \\\n    mv /tmp/dl /usr/local/bin/b && chmod +x /usr/local/bin/b\n"
    );
}

#[test]
fn images_are_built_when_the_config_changes() {
    let cfg = installed(InstallConfig::Npx);
    let file = generate_dockerfile(&cfg).unwrap();
    let hash = content_hash(&file);
    assert_eq!(hash.len(), 16);
    assert_eq!(hash, format!("{:016x}", fnv1a(&file)));
    let read = image_hash(true, &format!("{hash}\n"));
    assert_eq!(read.as_deref(), Some(hash.as_str()));
    assert!(matches!(ensure_image("gh", &cfg, read.as_deref()), EnsureImage::UpToDate));
    assert_ne!(content_hash("a"), content_hash("b"));
    let EnsureImage::Build(plan) = ensure_image("gh", &cfg, Some("other")) else {
        panic!("expected a build")
    };
    assert_eq!(plan.tag, "mcp-proxy/gh");
    assert_eq!(plan.args, vec!["build", "-t", "mcp-proxy/gh", "-f", "-", "."]);
    assert_eq!(plan.dockerfile, format!("{file}\nLABEL mcp-proxy.config-hash=\"{hash}\"\n"));
    assert!(matches!(ensure_image("gh", &cfg, None), EnsureImage::Build(_)));
    match ensure_image("gh", &ServerConfig::default(), None) {
        EnsureImage::NoInstall(m) => assert_eq!(m, "no install config for gh"),
        _ => panic!("expected an error"),
    }
}

#[test]
fn image_labels() {
    assert_eq!(image_tag("gh"), "mcp-proxy/gh");
    assert_eq!(
        inspect_args("mcp-proxy/gh"),
        vec![
            "inspect",
            "--format",
            "{{index .Config.Labels \"mcp-proxy.config-hash\"}}",
            "mcp-proxy/gh",
        ]
    );
    assert_eq!(image_hash(true, " abc\n"), Some("abc".to_string()));
    assert_eq!(image_hash(true, "\n"), None);
    assert_eq!(image_hash(false, "abc"), None);
    assert_eq!(build_error("gh", "boom"), "docker build failed for gh:\nboom");
}

#[test]
fn containers() {
    assert_eq!(unique_suffix(12, 3), (fnv1a("12") as u32).wrapping_add(3));
    assert_eq!(unique_suffix(12, u64::MAX), (fnv1a("12") as u32).wrapping_sub(1));
    let mut seen: Vec<u32> = (0..10000).map(|seq| unique_suffix(12, seq)).collect();
    seen.sort();
    seen.dedup();
    assert_eq!(seen.len(), 10000);
    assert_eq!(container_name("gh", 0xab), "mcp-proxy-gh-000000ab");
    let launch = Launch {
        docker: true,
        program: "srv".to_string(),
        args: vec!["stdio".to_string()],
        env: names(&[("A", "1")]),
    };
    assert_eq!(
        run_container("gh", &launch, 255),
        vec![
            "run", "-i", "--rm", "--name", "mcp-proxy-gh-000000ff", "-e", "A=1", "mcp-proxy/gh",
            "stdio",
        ]
    );
}

// ---------------------------------------------------------------------------
// Generated files
// ---------------------------------------------------------------------------

#[test]
fn one_dockerfile_for_all_servers() {
    let mut cfg = Config::default();
    cfg.servers.insert("n".to_string(), installed(InstallConfig::Npm { package: "a".to_string() }));
    cfg.servers.insert("m".to_string(), installed(InstallConfig::Npm { package: "b".to_string() }));
    cfg.servers.insert("_off".to_string(), installed(InstallConfig::Pip { package: "c".to_string() }));
    cfg.servers.insert(
        "z".to_string(),
        installed(InstallConfig::Binary {
            url: "u".to_string(),
            extract: None,
            binary: "bin".to_string(),
        }),
    );
    assert_eq!(
        dockerfile(&cfg),
        "FROM node:lts-slim\n\nRUN apt-get update && apt-get install -y --no-install-recommends \\\n    curl \\\n    ca-certificates && \\\n    rm -rf /var/lib/apt/lists/*\n\nRUN curl -fsSL \"u\" -o /tmp/z-dl && \\\n    mv /tmp/z-dl /usr/local/bin/bin && chmod +x /usr/local/bin/bin\n\nRUN npm install -g \\\n    a \\\n    b\n\nWORKDIR /app\nCOPY config/servers.json /app/config/servers.json\nCOPY mcp-proxy /usr/local/bin/mcp-proxy\n\nENV CONFIG_PATH=/app/config/servers.json\nENV MCP_TRANSPORT=http\nENV MCP_PORT=3000\n\nEXPOSE 3000\nCMD [\"mcp-proxy\", \"serve\"]\n"
    );
}

#[test]
fn an_example_of_the_environment() {
    let mut cfg = Config::default();
    cfg.servers.insert(
        "gh".to_string(),
        ServerConfig {
            env: names(&[("T", "${TOKEN}")]),
            args: vec!["${HOST}".to_string()],
            env_toggle: Some("GH".to_string()),
            ..Default::default()
        },
    );
    cfg.servers.insert(
        "other".to_string(),
        ServerConfig { args: vec!["${TOKEN}${MORE}".to_string()], ..Default::default() },
    );
    assert_eq!(
        env_example(&cfg),
        "# MCP Proxy — Environment Configuration\n# Auto-generated from config/servers.json\n\nMCP_PORT=3000\n\n# Enable/disable servers (all enabled by default, set false to disable)\nGH=true\n\n# API tokens / credentials\n\n# gh\nTOKEN=\nHOST=\n\n# other\nMORE=\n"
    );
}
