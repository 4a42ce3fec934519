use oci2git::digest_tracker::{DigestTracker, LayerDigest};
use oci2git::image_metadata::{BasicInfo, ContainerConfig, ImageMetadata};
use oci2git::metadata;

fn create_test_metadata() -> ImageMetadata {
    let basic_info = BasicInfo {
        name: "test:latest".to_string(),
        id: "sha256:1234567890abcdef".to_string(),
        tags: vec!["test:latest".to_string(), "test:1.0".to_string()],
        created: "2023-01-01T00:00:00Z".to_string(),
        architecture: "amd64".to_string(),
        os: "linux".to_string(),
    };
    let container_config = ContainerConfig {
        environment_variables: vec!["PATH=/usr/local/sbin:/usr/local/bin:/usr/sbin:/usr/bin:/sbin:/bin".to_string()],
        command: Some("bash".to_string()),
        entrypoint: Some("docker-entrypoint.sh".to_string()),
        working_directory: "/app".to_string(),
        exposed_ports: vec!["80/tcp".to_string()],
        labels: vec![("maintainer".to_string(), "test@example.com".to_string())],
    };
    let layer_digests = vec![
        LayerDigest {
            digest: "sha256:abc123".to_string(),
            command: "FROM alpine".to_string(),
            created: "2023-01-01T00:00:00Z".to_string(),
            is_empty: false,
            comment: None,
        },
        LayerDigest {
            digest: "sha256:def456".to_string(),
            command: "CMD [\"bash\"]".to_string(),
            created: "2023-01-01T00:00:00Z".to_string(),
            is_empty: true,
            comment: None,
        },
    ];
    ImageMetadata { basic_info: Some(basic_info), container_config: Some(container_config), layer_digests }
}

#[test]
fn test_render_markdown() {
    let metadata = create_test_metadata();
    let result = metadata.render_markdown();
    assert!(result.contains("# Image: test:latest"));
    assert!(result.contains("## Basic Information"));
    assert!(result.contains("- **Name**: test:latest"));
    assert!(result.contains("- **ID**: `sha256:1234567890abcdef`"));
    assert!(result.contains("- **Tags**: test:latest, test:1.0"));
    assert!(result.contains("- **Architecture**: amd64"));
    assert!(result.contains("### Environment Variables"));
    assert!(result.contains("PATH=/usr/local/sbin"));
    assert!(result.contains("### Command"));
    assert!(result.contains("bash"));
    assert!(result.contains("## Layer History"));
    assert!(result.contains("CMD [\"bash\"]"));
    assert!(result.contains("sha256:abc123"));
    assert!(result.contains("sha256:def456"));
}

#[test]
fn test_pipe_escaping() {
    let basic_info = BasicInfo {
        name: "test:latest".to_string(),
        id: "sha256:1234567890abcdef".to_string(),
        tags: vec!["test:latest".to_string()],
        created: "2023-01-01T00:00:00Z".to_string(),
        architecture: "amd64".to_string(),
        os: "linux".to_string(),
    };
    let container_config = ContainerConfig {
        environment_variables: vec![],
        command: Some("bash".to_string()),
        entrypoint: Some("docker-entrypoint.sh".to_string()),
        working_directory: "/app".to_string(),
        exposed_ports: vec![],
        labels: vec![],
    };
    let layer_digests = vec![LayerDigest {
        digest: "sha256:abc123".to_string(),
        command: "RUN echo 'test | with | pipes'".to_string(),
        created: "2023-01-01T00:00:00Z".to_string(),
        is_empty: false,
        comment: Some("comment | with | pipes".to_string()),
    }];
    let metadata = ImageMetadata { basic_info: Some(basic_info), container_config: Some(container_config), layer_digests };
    let result = metadata.render_markdown();
    assert!(result.contains("RUN echo 'test \\| with \\| pipes'"));
    assert!(result.contains("comment \\| with \\| pipes"));
    let parsed = ImageMetadata::parse_markdown(&result).unwrap();
    assert_eq!(parsed.layer_digests[0].command, "RUN echo 'test | with | pipes'");
    assert_eq!(parsed.layer_digests[0].comment.as_ref().unwrap(), "comment | with | pipes");
}

#[test]
fn test_real_world_round_trip() {
    let basic_info = BasicInfo {
        name: "postgres:16.9-alpine3.21".to_string(),
        id: "sha256:48ae07b5a3dfabc83a914aec99d42d083677f57853398ac14c5f25884da09f14".to_string(),
        tags: vec!["postgres:16.9-alpine3.21".to_string()],
        created: "2025-06-06T18:27:47Z".to_string(),
        architecture: "arm64".to_string(),
        os: "linux".to_string(),
    };
    let container_config = ContainerConfig {
        environment_variables: vec![
            "PATH=/usr/local/sbin:/usr/local/bin:/usr/sbin:/usr/bin:/sbin:/bin".to_string(),
            "GOSU_VERSION=1.17".to_string(),
            "PGDATA=/var/lib/postgresql/data".to_string(),
        ],
        command: Some("postgres".to_string()),
        entrypoint: Some("docker-entrypoint.sh".to_string()),
        working_directory: "/".to_string(),
        exposed_ports: vec!["5432/tcp".to_string()],
        labels: vec![("maintainer".to_string(), "postgres team".to_string())],
    };
    let layer_digests = vec![
        LayerDigest {
            digest: "sha256:6e771e15690e2fabf2332d3a3b744495411d6e0b00b2aea64419b58b0066cf81".to_string(),
            command: "ADD alpine-minirootfs-3.21.3-aarch64.tar.gz / # buildkit".to_string(),
            created: "2025-02-14T03:28:36+00:00".to_string(),
            is_empty: false,
            comment: Some("buildkit.dockerfile.v0".to_string()),
        },
        LayerDigest {
            digest: "sha256:7253dfc6422805ac3c15fda3414a5e3fb679f89df5a9ecfb3b80db788b4e8dcf".to_string(),
            command: "RUN set -eux; apk add --no-cache --virtual .gosu-deps ca-certificates dpkg gnupg; dpkgArch=\"$(dpkg --print-architecture | awk -F- '{ print $NF }')\"; wget -O /usr/local/bin/gosu \"https://github.com/tianon/gosu/releases/download/$GOSU_VERSION/gosu-$dpkgArch\"; wget -O /usr/local/bin/gosu.asc \"https://github.com/tianon/gosu/releases/download/$GOSU_VERSION/gosu-$dpkgArch.asc\"; export GNUPGHOME=\"$(mktemp -d)\"; gpg --batch --keyserver hkps://keys.openpgp.org --recv-keys B42F6819007F00F88E364FD4036A9C25BF357DD4; gpg --batch --verify /usr/local/bin/gosu.asc /usr/local/bin/gosu; gpgconf --kill all; rm -rf \"$GNUPGHOME\" /usr/local/bin/gosu.asc; apk del --no-network .gosu-deps; chmod +x /usr/local/bin/gosu; gosu --version; gosu nobody true # buildkit".to_string(),
            created: "2025-06-06T18:27:47+00:00".to_string(),
            is_empty: false,
            comment: Some("buildkit.dockerfile.v0".to_string()),
        },
        LayerDigest {
            digest: "sha256:c9d81a483d3df409a38c9a58f1a0aed7d439f67b1200e39485beee626b61b66e".to_string(),
            command: "RUN set -eux; wget -O postgresql.tar.bz2 \"https://ftp.postgresql.org/pub/source/v$PG_VERSION/postgresql-$PG_VERSION.tar.bz2\"; echo \"$PG_SHA256 *postgresql.tar.bz2\" | sha256sum -c -; mkdir -p /usr/src/postgresql; tar --extract --file postgresql.tar.bz2 --directory /usr/src/postgresql --strip-components 1; rm postgresql.tar.bz2; apk add --no-cache --virtual .build-deps $DOCKER_PG_LLVM_DEPS bison coreutils dpkg-dev dpkg flex g++ gcc krb5-dev libc-dev libedit-dev libxml2-dev libxslt-dev linux-headers make openldap-dev openssl-dev perl-dev perl-ipc-run perl-utils python3-dev tcl-dev util-linux-dev zlib-dev icu-dev lz4-dev zstd-dev; cd /usr/src/postgresql; awk '$1 == \"#define\" && $2 == \"DEFAULT_PGSOCKET_DIR\" && $3 == \"\\\"/tmp\\\"\" { $3 = \"\\\"/var/run/postgresql\\\"\"; print; next } { print }' src/include/pg_config_manual.h > src/include/pg_config_manual.h.new; grep '/var/run/postgresql' src/include/pg_config_manual.h.new; mv src/include/pg_config_manual.h.new src/include/pg_config_manual.h; gnuArch=\"$(dpkg-architecture --query DEB_BUILD_GNU_TYPE)\"; export LLVM_CONFIG=\"/usr/lib/llvm19/bin/llvm-config\"; export CLANG=clang-19; ./configure --enable-option-checking=fatal --build=\"$gnuArch\" --enable-integer-datetimes --enable-thread-safety --enable-tap-tests --disable-rpath --with-uuid=e2fs --with-pgport=5432 --with-system-tzdata=/usr/share/zoneinfo --prefix=/usr/local --with-includes=/usr/local/include --with-libraries=/usr/local/lib --with-gssapi --with-ldap --with-tcl --with-perl --with-python --with-openssl --with-libxml --with-libxslt --with-icu --with-llvm --with-lz4 --with-zstd; make -j \"$(nproc)\" world-bin; make install-world-bin; make -C contrib install; runDeps=\"$( scanelf --needed --nobanner --format '%n#p' --recursive /usr/local | tr ',' '\\n' | sort -u | awk 'system(\"[ -e /usr/local/lib/\" $1 \" ]\") == 0 { next } { print \"so:\" $1 }' | grep -v -e perl -e python -e tcl )\"; apk add --no-cache --virtual .postgresql-rundeps $runDeps bash tzdata zstd icu-data-full $([ \"$(apk --print-arch)\" != 'ppc64le' ] && echo 'nss_wrapper'); apk del --no-network .build-deps; cd /; rm -rf /usr/src/postgresql /usr/local/share/doc /usr/local/share/man; postgres --version # buildkit".to_string(),
            created: "2025-06-06T18:27:47+00:00".to_string(),
            is_empty: false,
            comment: Some("buildkit.dockerfile.v0".to_string()),
        },
        LayerDigest {
            digest: "sha256:d5b0bb61acee74b02675e9f87df8e6c1f747d93dc7e017908aae89187f4180e9".to_string(),
            command: "RUN set -eux; cp -v /usr/local/share/postgresql/postgresql.conf.sample /usr/local/share/postgresql/postgresql.conf.sample.orig; sed -ri \"s!^#?(listen_addresses)\\s*=\\s*\\S+.*!\\1 = '*'!\" /usr/local/share/postgresql/postgresql.conf.sample; grep -F \"listen_addresses = '*'\" /usr/local/share/postgresql/postgresql.conf.sample # buildkit".to_string(),
            created: "2025-06-06T18:27:47+00:00".to_string(),
            is_empty: false,
            comment: Some("buildkit.dockerfile.v0".to_string()),
        },
    ];
    let input_metadata = ImageMetadata { basic_info: Some(basic_info), container_config: Some(container_config), layer_digests };
    let rendered_markdown = input_metadata.render_markdown();
    assert!(rendered_markdown.contains("dpkg --print-architecture \\| awk"));
    assert!(rendered_markdown.contains("sha256sum -c -"));
    assert!(rendered_markdown.contains("\\| tr ','"));
    assert!(rendered_markdown.contains("\\| sort -u"));
    assert!(rendered_markdown.contains("\\| awk 'system"));
    assert!(rendered_markdown.contains("\\| grep -v"));
    let parsed_metadata = ImageMetadata::parse_markdown(&rendered_markdown).unwrap();
    assert_eq!(parsed_metadata.basic_info.as_ref().unwrap().name, input_metadata.basic_info.as_ref().unwrap().name);
    assert_eq!(parsed_metadata.basic_info.as_ref().unwrap().id, input_metadata.basic_info.as_ref().unwrap().id);
    assert_eq!(
        parsed_metadata.basic_info.as_ref().unwrap().architecture,
        input_metadata.basic_info.as_ref().unwrap().architecture
    );
    assert_eq!(parsed_metadata.layer_digests.len(), input_metadata.layer_digests.len());
    for (i, (expected, parsed)) in input_metadata.layer_digests.iter().zip(parsed_metadata.layer_digests.iter()).enumerate() {
        assert_eq!(parsed.digest, expected.digest, "Layer {} digest mismatch", i);
        assert_eq!(parsed.command, expected.command, "Layer {} command mismatch", i);
        assert_eq!(parsed.created, expected.created, "Layer {} created mismatch", i);
        assert_eq!(parsed.is_empty, expected.is_empty, "Layer {} empty flag mismatch", i);
        assert_eq!(parsed.comment, expected.comment, "Layer {} comment mismatch", i);
    }
    let complex_layer = &parsed_metadata.layer_digests[2];
    assert!(complex_layer.command.contains("| sha256sum -c -"));
    assert!(complex_layer.command.contains("| tr ',' '\\n'"));
    assert!(complex_layer.command.contains("| sort -u"));
    assert!(complex_layer.command.contains("| awk 'system"));
    assert!(complex_layer.command.contains("| grep -v"));
    assert!(!complex_layer.command.contains("\\|"));
    assert!(!complex_layer.comment.as_ref().unwrap_or(&String::new()).contains("\\|"));
}

#[test]
fn test_load_from_image_md() {
    let image_md_content = r#"# Image: test:latest

## Basic Information

- **Name**: test:latest
- **ID**: `sha256:test123`

## Layer History

| Created | Command | Comment | Digest | Empty |
|---------|---------|---------|--------|-------|
| 2023-01-01T00:00:00Z | `FROM alpine` | buildkit.dockerfile.v0 | `sha256:abc123` | false |
"#;
    let parsed = ImageMetadata::parse_markdown(image_md_content).unwrap();
    let loaded_tracker = DigestTracker::from_layers(parsed.layer_digests);
    assert_eq!(loaded_tracker.layer_digests.len(), 1);
    let layer = loaded_tracker.get_layer(0).unwrap();
    assert_eq!(layer.digest, "sha256:abc123");
    assert_eq!(layer.command, "FROM alpine");
    assert!(!layer.is_empty);
}

#[test]
fn full_round_trip_of_sections() {
    let m = create_test_metadata();
    let parsed = ImageMetadata::parse_markdown(&m.render_markdown()).unwrap();
    let b = parsed.basic_info.unwrap();
    assert_eq!(b.tags, vec!["test:latest".to_string(), "test:1.0".to_string()]);
    assert_eq!(b.os, "linux");
    assert_eq!(b.created, "2023-01-01T00:00:00Z");
    let c = parsed.container_config.unwrap();
    assert_eq!(c.environment_variables, vec!["PATH=/usr/local/sbin:/usr/local/bin:/usr/sbin:/usr/bin:/sbin:/bin".to_string()]);
    assert_eq!(c.command, Some("bash".to_string()));
    assert_eq!(c.entrypoint, Some("docker-entrypoint.sh".to_string()));
    assert_eq!(c.working_directory, "/app");
    assert_eq!(c.exposed_ports, vec!["80/tcp".to_string()]);
    assert_eq!(c.labels, vec![("maintainer".to_string(), "test@example.com".to_string())]);
    assert_eq!(parsed.layer_digests.len(), 2);
    assert!(parsed.layer_digests[1].is_empty);
    assert_eq!(parsed.layer_digests[1].command, "CMD [\"bash\"]");
}

#[test]
fn absent_sections_read_as_none() {
    let m = ImageMetadata::new(None, None);
    let text = m.render_markdown();
    assert_eq!(text, "# Image: Unknown\n\n");
    let parsed = ImageMetadata::parse_markdown(&text).unwrap();
    assert!(parsed.basic_info.is_none());
    assert!(parsed.container_config.is_none());
    assert!(parsed.layer_digests.is_empty());
}

#[test]
fn exact_layer_row_text() {
    let m = ImageMetadata {
        basic_info: None,
        container_config: None,
        layer_digests: vec![LayerDigest {
            digest: "empty".to_string(),
            command: "ENV A=b|c".to_string(),
            created: "2023-01-01T00:00:00+00:00".to_string(),
            is_empty: true,
            comment: None,
        }],
    };
    assert_eq!(
        m.render_markdown(),
        "# Image: Unknown\n\n## Layer History\n\n| Created | Command | Comment | Digest | Empty |\n|---------|---------|---------|--------|-------|\n| 2023-01-01T00:00:00+00:00 | `ENV A=b\\|c` |  | `empty` | true |\n\n"
    );
}

#[test]
fn later_label_row_replaces_earlier_and_workdir_defaults() {
    let text = "## Container Configuration\n\n### Labels\n\n| Key | Value |\n|-----|-------|\n| `a` | `1` |\n| `b` | `2` |\n| `a` | `3` |\n";
    let c = ImageMetadata::parse_markdown(text).unwrap().container_config.unwrap();
    assert_eq!(c.labels, vec![("a".to_string(), "3".to_string()), ("b".to_string(), "2".to_string())]);
    assert_eq!(c.working_directory, "/");
    assert!(c.command.is_none());
}

#[test]
fn complete_metadata_from_image_configuration() {
    let legacy = metadata::ImageMetadata {
        id: "sha256:abc".to_string(),
        repo_tags: vec!["app:1.0".to_string()],
        created: "2024-01-01T00:00:00Z".to_string(),
        container_config: metadata::ContainerConfig {
            env: vec!["A=1".to_string()],
            cmd: Some(vec!["nginx".to_string(), "-g".to_string(), "daemon off;".to_string()]),
            entrypoint: None,
            exposed_ports: Some(vec!["80/tcp".to_string()]),
            working_dir: None,
            volumes: None,
            labels: None,
        },
        history: vec![],
        architecture: "amd64".to_string(),
        os: "linux".to_string(),
    };
    let mut tracker = DigestTracker::new();
    tracker.add_layer(0, "sha256:l1".to_string(), "RUN x".to_string(), "2024-01-01T00:00:00+00:00".to_string(), false, None);
    let m = ImageMetadata::from_legacy(&legacy, &tracker, "app:1.0");
    let c = m.container_config.as_ref().unwrap();
    assert_eq!(c.command, Some("nginx -g daemon off;".to_string()));
    assert_eq!(c.working_directory, "/");
    assert!(c.entrypoint.is_none());
    assert_eq!(m.basic_info.as_ref().unwrap().name, "app:1.0");
    assert_eq!(m.layer_digests.len(), 1);
    let mut other = ImageMetadata::new(None, None);
    other.update_layer_digests(&tracker);
    assert_eq!(other.layer_digests[0].digest, "sha256:l1");
}

// Writing and reading the document back, without the file in between.
#[test]
fn test_save_and_load_markdown() {
    let written = create_test_metadata();
    let text = written.render_markdown();
    let loaded = ImageMetadata::parse_markdown(&text).unwrap();
    assert_eq!(loaded.basic_info.as_ref().unwrap().id, written.basic_info.as_ref().unwrap().id);
    assert_eq!(
        loaded.basic_info.as_ref().unwrap().architecture,
        written.basic_info.as_ref().unwrap().architecture
    );
}
