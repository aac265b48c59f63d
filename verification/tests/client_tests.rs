use repo_archiver::client::{orgs_paginator, repos_paginator, ORGS_URL};
use repo_archiver::domain::{clone_plan, MenuDisplay, Org, Repo};
use repo_archiver::menu::parse_choice;

#[test]
fn orgs_listing_starts_at_the_fixed_endpoint() {
    let p = orgs_paginator();
    assert_eq!(p.current_url().unwrap(), ORGS_URL);
    assert_eq!(p.pages(), 0);
}

#[test]
fn repos_listing_merges_the_page_size_hint() {
    let p = repos_paginator("https://api.example.com/orgs/acme/repos").unwrap();
    assert_eq!(
        p.current_url().unwrap(),
        "https://api.example.com/orgs/acme/repos?per_page=100"
    );
}

#[test]
fn repos_listing_preserves_existing_query_parameters() {
    let p = repos_paginator("https://api.example.com/repos?type=owner").unwrap();
    assert_eq!(
        p.current_url().unwrap(),
        "https://api.example.com/repos?type=owner&per_page=100"
    );
}

#[test]
fn unparseable_starting_url_is_reported() {
    assert!(repos_paginator("not a url").is_none());
}

#[test]
fn labels_render_the_display_name() {
    let org = Org {
        login: "acme".to_string(),
        repos_url: "https://api.example.com/orgs/acme/repos".to_string(),
        description: "d".to_string(),
    };
    assert_eq!(org.label(), "acme");
    let repo = Repo {
        name: "tool".to_string(),
        ssh_url: "git@example.com:acme/tool.git".to_string(),
    };
    assert_eq!(repo.label(), "tool");
}

#[test]
fn organization_to_clones_end_to_end() {
    let orgs = vec![Org {
        login: "acme".to_string(),
        repos_url: "https://api.example.com/orgs/acme/repos".to_string(),
        description: "d".to_string(),
    }];

    let picked = parse_choice("1", orgs.len()).unwrap();
    assert_eq!(picked, 0);

    let mut p = repos_paginator(&orgs[picked].repos_url).unwrap();
    let page1 = vec![
        Repo { name: "r1".to_string(), ssh_url: "git@example.com:acme/r1.git".to_string() },
        Repo { name: "r2".to_string(), ssh_url: "git@example.com:acme/r2.git".to_string() },
    ];
    p.on_page(
        Some("<https://api.example.com/orgs/acme/repos?per_page=100&page=2>; rel=\"next\""),
        page1,
    )
    .unwrap();
    assert_eq!(
        p.current_url().unwrap(),
        "https://api.example.com/orgs/acme/repos?per_page=100&page=2"
    );
    let page2 = vec![
        Repo { name: "r3".to_string(), ssh_url: "git@example.com:acme/r3.git".to_string() },
        Repo { name: "r4".to_string(), ssh_url: "git@example.com:acme/r4.git".to_string() },
    ];
    p.on_page(None, page2).unwrap();
    assert!(p.is_done());
    assert_eq!(p.pages(), 2);

    let repos = p.into_results();
    assert_eq!(repos.len(), 4);

    let plan = clone_plan(&repos);
    assert_eq!(
        plan,
        vec![
            "git@example.com:acme/r1.git",
            "git@example.com:acme/r2.git",
            "git@example.com:acme/r3.git",
            "git@example.com:acme/r4.git",
        ],
        "one clone per repository, in arrival order"
    );
}
