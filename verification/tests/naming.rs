use fusion_core::naming::{
    api_action_name, api_resource_name, join_route_paths, resolve_handler_route,
    resolve_method_route_path, resolve_route_path,
};

#[test]
fn strips_module_suffix_and_lowercases() {
    assert_eq!(api_resource_name("ProductsModule"), "products");
    assert_eq!(api_resource_name("MyFirstMODULE"), "myfirst");
    assert_eq!(api_resource_name("Health"), "health");
}

#[test]
fn expands_module_token() {
    assert_eq!(
        resolve_route_path("/test/[module]", "ProductsModule"),
        "/test/products"
    );
    assert_eq!(
        resolve_route_path("/api/[module]/{id}", "UserModule"),
        "/api/user/{id}"
    );
}

#[test]
fn expands_action_token() {
    assert_eq!(api_action_name("UserAction"), "user");
    assert_eq!(api_action_name("ListItems"), "listitems");
    assert_eq!(
        resolve_method_route_path("test/[action]", "UserModule", "UserAction"),
        "test/user"
    );
}

#[test]
fn joins_class_and_method_routes() {
    assert_eq!(
        resolve_handler_route("/api/user", "test/[action]", "UserModule", "UserAction"),
        "/api/user/test/user"
    );
    assert_eq!(
        resolve_handler_route("/api/user", "/absolute/[action]", "UserModule", "UserAction"),
        "/absolute/user"
    );
}

#[test]
fn module_suffix_alone_is_kept() {
    assert_eq!(api_resource_name("Module"), "module");
    assert_eq!(api_action_name("ACTION"), "action");
}

#[test]
fn join_handles_slashes() {
    assert_eq!(join_route_paths("", ""), "/");
    assert_eq!(join_route_paths("/api/", "/x/"), "/api/x");
    assert_eq!(join_route_paths("", "x"), "/x");
    assert_eq!(join_route_paths("/api//", ""), "/api");
}

#[test]
fn join_is_idempotent_on_empty_segment() {
    let once = join_route_paths("/api/", "/users/");
    assert_eq!(join_route_paths(&once, ""), once);
}

#[test]
fn absolute_template_ignores_base() {
    assert_eq!(
        resolve_handler_route("/a", "/x/[action]", "M", "GetAction"),
        resolve_handler_route("/b/c", "/x/[action]", "M", "GetAction")
    );
}

#[test]
fn template_without_token_is_unchanged() {
    assert_eq!(resolve_route_path("/plain/{id}", "UserModule"), "/plain/{id}");
}
