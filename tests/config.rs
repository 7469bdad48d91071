use bs_site_builder::config::{Config, Server, Site};

#[test]
fn log_folders() {
    let config = Config::new("content".to_string(), "logs".to_string(), "docs".to_string(), true);
    assert_eq!(config.json_logs(), "logs/json");
    assert_eq!(config.txt_logs(), "logs/txt");
    assert_eq!(config.output_root, "docs");
    let server = Server::new(config, 5444);
    assert_eq!(server.port, 5444);
}

#[test]
fn site_layout() {
    let site = Site::new();
    assert_eq!(site.content_dir, "content");
    assert_eq!(site.data_dir, "content/_data");
    assert_eq!(site.docs_dir, "docs");
    assert_eq!(site.scripts_dir, "content/_scripts");
}
