use kdf_init::cmdline::{
    classify, parse_cmdline, parse_symlink, parse_symlinks, parse_virtiofs_mount,
    parse_virtiofs_mounts, Config, ParseError, Symlink, Token, VirtiofsMount,
};

#[test]
fn test_parse_empty_cmdline() {
    let config = parse_cmdline("").unwrap();
    assert_eq!(config, Config::default());
}

#[test]
fn test_parse_virtiofs_basic() {
    let config = parse_cmdline("init.virtiofs=share:/mnt/share").unwrap();
    assert_eq!(config.virtiofs_mounts.len(), 1);
    assert_eq!(config.virtiofs_mounts[0].tag, "share");
    assert_eq!(config.virtiofs_mounts[0].path, "/mnt/share");
    assert_eq!(config.virtiofs_mounts[0].with_overlay, false);
}

#[test]
fn test_parse_virtiofs_with_overlay() {
    let config = parse_cmdline("init.virtiofs=share:/mnt/share:Y").unwrap();
    assert_eq!(config.virtiofs_mounts.len(), 1);
    assert_eq!(config.virtiofs_mounts[0].with_overlay, true);
}

#[test]
fn test_parse_virtiofs_multiple() {
    let config = parse_cmdline("init.virtiofs=share1:/mnt/a,share2:/mnt/b:Y").unwrap();
    assert_eq!(config.virtiofs_mounts.len(), 2);
    assert_eq!(config.virtiofs_mounts[0].tag, "share1");
    assert_eq!(config.virtiofs_mounts[0].path, "/mnt/a");
    assert_eq!(config.virtiofs_mounts[0].with_overlay, false);
    assert_eq!(config.virtiofs_mounts[1].tag, "share2");
    assert_eq!(config.virtiofs_mounts[1].path, "/mnt/b");
    assert_eq!(config.virtiofs_mounts[1].with_overlay, true);
}

#[test]
fn test_parse_symlinks() {
    let config =
        parse_cmdline("init.symlinks=/bin/sh:/bin/bash,/usr/bin/vi:/usr/bin/vim").unwrap();
    assert_eq!(config.symlinks.len(), 2);
    assert_eq!(config.symlinks[0].source, "/bin/sh");
    assert_eq!(config.symlinks[0].target, "/bin/bash");
    assert_eq!(config.symlinks[1].source, "/usr/bin/vi");
    assert_eq!(config.symlinks[1].target, "/usr/bin/vim");
}

#[test]
fn test_parse_env_vars() {
    let config = parse_cmdline("init.env.PATH=/usr/bin init.env.HOME=/root").unwrap();
    assert_eq!(config.env_vars.len(), 2);
    assert_eq!(config.env_vars.get("PATH"), Some(&"/usr/bin".to_string()));
    assert_eq!(config.env_vars.get("HOME"), Some(&"/root".to_string()));
}

#[test]
fn test_parse_command() {
    let config = parse_cmdline("init.cmd=/bin/sh").unwrap();
    assert_eq!(config.command, Some("/bin/sh".to_string()));
}

#[test]
fn test_parse_full_cmdline() {
    let cmdline = "console=ttyS0 init.virtiofs=share:/mnt:Y init.symlinks=/bin/sh:/bin/bash init.env.PATH=/usr/bin init.cmd=/bin/sh quiet";
    let config = parse_cmdline(cmdline).unwrap();

    assert_eq!(config.virtiofs_mounts.len(), 1);
    assert_eq!(config.virtiofs_mounts[0].tag, "share");
    assert_eq!(config.virtiofs_mounts[0].path, "/mnt");
    assert_eq!(config.virtiofs_mounts[0].with_overlay, true);

    assert_eq!(config.symlinks.len(), 1);
    assert_eq!(config.symlinks[0].source, "/bin/sh");
    assert_eq!(config.symlinks[0].target, "/bin/bash");

    assert_eq!(config.env_vars.get("PATH"), Some(&"/usr/bin".to_string()));
    assert_eq!(config.command, Some("/bin/sh".to_string()));
}

#[test]
fn test_parse_invalid_virtiofs() {
    let result = parse_cmdline("init.virtiofs=invalid");
    assert!(result.is_err());
}

#[test]
fn test_parse_invalid_symlink() {
    let result = parse_cmdline("init.symlinks=invalid");
    assert!(result.is_err());
}

#[test]
fn test_whitespace_only_is_empty() {
    assert_eq!(parse_cmdline("  \t \n ").unwrap(), Config::default());
}

#[test]
fn test_last_command_wins() {
    let config = parse_cmdline("init.cmd=/bin/sh init.cmd=/bin/ash").unwrap();
    assert_eq!(config.command, Some("/bin/ash".to_string()));
}

#[test]
fn test_command_may_be_empty_or_hold_equals() {
    assert_eq!(parse_cmdline("init.cmd=").unwrap().command, Some("".to_string()));
    assert_eq!(parse_cmdline("init.cmd=a=b").unwrap().command, Some("a=b".to_string()));
    assert_eq!(parse_cmdline("init.cmd").unwrap().command, None);
}

#[test]
fn test_last_virtiofs_list_replaces() {
    let config = parse_cmdline("init.virtiofs=a:/a,b:/b:Y init.virtiofs=c:/c").unwrap();
    assert_eq!(
        config.virtiofs_mounts,
        vec![VirtiofsMount { tag: "c".to_string(), path: "/c".to_string(), with_overlay: false }]
    );
    let config = parse_cmdline("init.virtiofs=a:/a init.virtiofs=").unwrap();
    assert!(config.virtiofs_mounts.is_empty());
}

#[test]
fn test_last_symlinks_list_replaces() {
    let config = parse_cmdline("init.symlinks=/a:/b,/c:/d init.symlinks=/e:/f").unwrap();
    assert_eq!(
        config.symlinks,
        vec![Symlink { source: "/e".to_string(), target: "/f".to_string() }]
    );
}

#[test]
fn test_overlay_flag_is_exactly_y() {
    let overlay = |item: &str| parse_virtiofs_mount(item).unwrap().with_overlay;
    assert!(overlay("tag:/p:Y"));
    assert!(!overlay("tag:/p:y"));
    assert!(!overlay("tag:/p:N"));
    assert!(!overlay("tag:/p:yes"));
    assert!(!overlay("tag:/p:YY"));
    assert!(!overlay("tag:/p:"));
    assert!(!overlay("tag:/p"));
}

#[test]
fn test_field_count_is_two_or_three() {
    assert!(parse_cmdline("init.virtiofs=onlytag").is_err());
    assert!(parse_cmdline("init.virtiofs=a:b:c:d").is_err());
    assert!(parse_cmdline("init.virtiofs=a:b").is_ok());
    assert!(parse_cmdline("init.virtiofs=a:b:c").is_ok());
    assert_eq!(parse_virtiofs_mount("onlytag"), None);
    assert_eq!(parse_virtiofs_mount("a:b:c:d"), None);
    assert_eq!(parse_virtiofs_mount(""), None);
    assert_eq!(
        parse_virtiofs_mount(":"),
        Some(VirtiofsMount { tag: "".to_string(), path: "".to_string(), with_overlay: false })
    );
}

#[test]
fn test_malformed_item_refuses_the_list() {
    assert_eq!(
        parse_virtiofs_mounts("a:/a,bad,c:/c"),
        Err(ParseError::InvalidVirtiofsMount("bad".to_string()))
    );
    assert_eq!(
        parse_virtiofs_mounts("a:/a,b:/b:Y:x,also-bad"),
        Err(ParseError::InvalidVirtiofsMount("b:/b:Y:x".to_string()))
    );
    assert_eq!(
        parse_symlinks("/a:/b,nocolon,worse"),
        Err(ParseError::InvalidSymlink("nocolon".to_string()))
    );
    assert_eq!(
        parse_cmdline("init.cmd=x init.virtiofs=a:/a,bad init.symlinks=worse"),
        Err(ParseError::InvalidVirtiofsMount("bad".to_string()))
    );
    assert_eq!(
        parse_cmdline("init.symlinks=worse init.virtiofs=bad"),
        Err(ParseError::InvalidSymlink("worse".to_string()))
    );
}

#[test]
fn test_empty_items_are_skipped() {
    let mounts = parse_virtiofs_mounts(",a:/a,,b:/b:Y,").unwrap();
    assert_eq!(mounts.len(), 2);
    assert_eq!(mounts[1].tag, "b");
    assert_eq!(parse_virtiofs_mounts("").unwrap(), Vec::<VirtiofsMount>::new());
    assert_eq!(parse_symlinks(",,").unwrap(), Vec::<Symlink>::new());
    assert_eq!(parse_symlinks(",/a:/b,").unwrap().len(), 1);
}

#[test]
fn test_symlink_is_cut_at_first_colon() {
    let config = parse_cmdline("init.symlinks=/a:b:c:/d").unwrap();
    assert_eq!(config.symlinks.len(), 1);
    assert_eq!(config.symlinks[0].source, "/a");
    assert_eq!(config.symlinks[0].target, "b:c:/d");
    assert_eq!(
        parse_symlink(":"),
        Some(Symlink { source: "".to_string(), target: "".to_string() })
    );
    assert_eq!(parse_symlink("a"), None);
}

#[test]
fn test_env_vars_accumulate_and_overwrite() {
    let config = parse_cmdline("init.env.A=1 init.env.B=2").unwrap();
    assert_eq!(config.env_vars.len(), 2);
    assert_eq!(config.env_vars.get("A"), Some(&"1".to_string()));
    assert_eq!(config.env_vars.get("B"), Some(&"2".to_string()));
    let config = parse_cmdline("init.env.A=1 init.env.A=2").unwrap();
    assert_eq!(config.env_vars.len(), 1);
    assert_eq!(config.env_vars.get("A"), Some(&"2".to_string()));
}

#[test]
fn test_env_var_order_does_not_show() {
    assert_eq!(
        parse_cmdline("init.env.A=1 init.env.B=2").unwrap(),
        parse_cmdline("init.env.B=2 init.env.A=1").unwrap()
    );
}

#[test]
fn test_env_token_without_equals_is_dropped() {
    let config = parse_cmdline("init.env.NOVALUE init.env.A=1").unwrap();
    assert_eq!(config.env_vars.len(), 1);
    assert_eq!(config.env_vars.get("NOVALUE"), None);
    let config = parse_cmdline("init.env.A=b=c init.env.=x init.env.E=").unwrap();
    assert_eq!(config.env_vars.get("A"), Some(&"b=c".to_string()));
    assert_eq!(config.env_vars.get(""), Some(&"x".to_string()));
    assert_eq!(config.env_vars.get("E"), Some(&"".to_string()));
}

#[test]
fn test_unrecognized_tokens_are_ignored() {
    let config = parse_cmdline("console=ttyS0 quiet init.virtiofsx=bad init.cmdx=y xinit.cmd=z").unwrap();
    assert_eq!(config, Config::default());
}

#[test]
fn test_full_line_gives_one_of_each() {
    let cmdline = "console=ttyS0 init.virtiofs=share:/mnt:Y init.symlinks=/bin/sh:/bin/bash init.env.PATH=/usr/bin init.cmd=/bin/sh quiet";
    let config = parse_cmdline(cmdline).unwrap();
    assert_eq!(
        config.virtiofs_mounts,
        vec![VirtiofsMount { tag: "share".to_string(), path: "/mnt".to_string(), with_overlay: true }]
    );
    assert_eq!(
        config.symlinks,
        vec![Symlink { source: "/bin/sh".to_string(), target: "/bin/bash".to_string() }]
    );
    assert_eq!(config.env_vars.len(), 1);
    assert_eq!(config.command, Some("/bin/sh".to_string()));
}

#[test]
fn test_tokens_between_any_whitespace() {
    let config = parse_cmdline("\tinit.cmd=/bin/sh\n\ninit.env.A=1\u{a0}init.env.B=2  ").unwrap();
    assert_eq!(config.command, Some("/bin/sh".to_string()));
    assert_eq!(config.env_vars.len(), 2);
}

#[test]
fn test_classify() {
    assert!(matches!(classify("init.virtiofs=a:b"), Token::Virtiofs("a:b")));
    assert!(matches!(classify("init.symlinks="), Token::Symlinks("")));
    assert!(matches!(classify("init.env.A=b=c"), Token::Env("A", "b=c")));
    assert!(matches!(classify("init.env.A"), Token::Other));
    assert!(matches!(classify("init.cmd=/bin/sh"), Token::Command("/bin/sh")));
    assert!(matches!(classify("init.cmd"), Token::Other));
    assert!(matches!(classify("quiet"), Token::Other));
    assert!(matches!(classify(""), Token::Other));
}

#[test]
fn test_parse_error_messages() {
    assert_eq!(
        ParseError::InvalidVirtiofsMount("bad".to_string()).message(),
        "Invalid virtiofs mount spec: bad"
    );
    assert_eq!(
        ParseError::InvalidSymlink("worse".to_string()).message(),
        "Invalid symlink spec: worse"
    );
}

#[test]
fn test_mount_is_well_formed() {
    let mount = |tag: &str, path: &str| VirtiofsMount {
        tag: tag.to_string(),
        path: path.to_string(),
        with_overlay: false,
    };
    assert!(mount("share", "/mnt").is_well_formed());
    assert!(!mount("", "/mnt").is_well_formed());
    assert!(!mount("share", "").is_well_formed());
    assert!(!parse_virtiofs_mount(":").unwrap().is_well_formed());
}
