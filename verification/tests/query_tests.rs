use filestore::auth::{AppError, RegisterUser};
use filestore::files::{
    build_cdn_link, content_disposition, infer_file_type, rsplit_once, Environment, FileQuery,
    FileTypes, S3Providers,
};
use filestore::query::{
    buckets_list_stmt, default_limit, default_none, default_page, default_path, default_public,
    default_sort_type, files_list_stmt, files_sort_clause, format_hashset_select_string,
    get_select_string, QueryParams, SortType,
};

fn params_with_sort(field: Option<&str>, st: Option<SortType>) -> QueryParams {
    QueryParams {
        page: default_page(),
        limit: default_limit(),
        fields: default_none(),
        filters: default_none(),
        sort_field: field.map(|f| f.to_string()),
        sort_type: st,
        relations: default_none(),
        path: default_path(),
    }
}

#[test]
fn sort_clause_qualifies_plain_fields_with_the_alias() {
    let q = params_with_sort(Some("created_at"), Some(SortType::Desc));
    assert_eq!(q.to_query_sort("Files"), "ORDER BY files.created_at Desc");
}

#[test]
fn sort_clause_keeps_dotted_fields_as_given() {
    let q = params_with_sort(Some("files.size"), None);
    assert_eq!(q.to_query_sort("Files"), "ORDER BY files.size Asc");
}

#[test]
fn no_sort_field_means_no_clause() {
    let q = params_with_sort(None, Some(SortType::Desc));
    assert_eq!(q.to_query_sort("Files"), "");
}

#[test]
fn defaults_match_the_request_contract() {
    assert_eq!(default_page(), Some(0));
    assert_eq!(default_limit(), Some(30));
    assert_eq!(default_none(), None);
    assert_eq!(default_sort_type(), Some(SortType::Asc));
    assert_eq!(default_path(), "");
    assert!(!default_public());
}

#[test]
fn folder_first_sorting_wraps_the_requested_order() {
    assert_eq!(files_sort_clause(""), "ORDER BY type = 'folder' desc");
    assert_eq!(
        files_sort_clause("ORDER BY files.size Asc"),
        "ORDER BY type = 'folder' desc,  files.size Asc"
    );
}

#[test]
fn select_string_qualifies_unqualified_columns() {
    let fields = vec!["id".to_string(), "files.size".to_string()];
    assert_eq!(get_select_string("files", &fields), "files.id,files.size");
}

#[test]
fn hashset_select_string_joins_with_comma_space() {
    let fields = vec!["a".to_string(), "b".to_string()];
    assert_eq!(format_hashset_select_string(&fields), "a, b");
}

#[test]
fn listing_statements_embed_filter_and_sort() {
    let stmt = files_list_stmt("TRUE", "ORDER BY type = 'folder' desc");
    assert_eq!(
        stmt,
        "SELECT id, created_at, title, type, size, is_public, path FROM files WHERE path = $1 AND owner_id = $2 AND TRUE ORDER BY type = 'folder' desc LIMIT 25 OFFSET 0;"
    );
    let b = buckets_list_stmt("FALSE", "");
    assert_eq!(
        b,
        "SELECT id, title FROM buckets WHERE owner_id = $1 AND FALSE  LIMIT 25 OFFSET 0;"
    );
}

#[test]
fn sort_type_parses_with_ascending_fallback() {
    assert_eq!(SortType::from("desc"), SortType::Desc);
    assert_eq!(SortType::from("asc"), SortType::Asc);
    assert_eq!(SortType::from("anything"), SortType::Asc);
}

#[test]
fn file_types_classify_extensions_and_mimes() {
    assert_eq!(FileTypes::from("png"), FileTypes::Png);
    assert_eq!(FileTypes::from("image/png"), FileTypes::Png);
    assert_eq!(FileTypes::from("PNG"), FileTypes::Png);
    assert_eq!(
        FileTypes::from("application/vnd.openxmlformats-officedocument.spreadsheetml.sheet"),
        FileTypes::Xlsx
    );
    assert_eq!(FileTypes::from("weird"), FileTypes::Other("weird".to_string()));
}

#[test]
fn content_types_round_trip_through_the_table() {
    assert_eq!(FileTypes::Png.content_type(), "image/png");
    assert_eq!(FileTypes::Jpg.content_type(), "image/jpeg");
    assert_eq!(FileTypes::Jpeg.content_type(), "image/jpeg");
    assert_eq!(
        FileTypes::Other("weird".to_string()).content_type(),
        "application/octet-stream"
    );
}

#[test]
fn type_inference_prefers_mime_then_extension() {
    assert_eq!(infer_file_type(Some("application/pdf"), "x.png"), FileTypes::Pdf);
    assert_eq!(infer_file_type(None, "cat.png"), FileTypes::Png);
    assert_eq!(infer_file_type(None, "noext"), FileTypes::Other("".to_string()));
}

#[test]
fn rsplit_finds_the_last_separator() {
    assert_eq!(
        rsplit_once("a/b/c", '/'),
        Some(("a/b".to_string(), "c".to_string()))
    );
    assert_eq!(rsplit_once("abc", '/'), None);
    assert_eq!(
        rsplit_once("cat.tar.gz", '.'),
        Some(("cat.tar".to_string(), "gz".to_string()))
    );
}

#[test]
fn format_path_adds_the_separator_only_when_needed() {
    let empty = FileQuery { path: "".to_string(), is_public: false, is_folder: false };
    assert_eq!(empty.format_path(), "");
    let pics = FileQuery { path: "pics".to_string(), is_public: false, is_folder: false };
    assert_eq!(pics.format_path(), "pics/");
}

#[test]
fn cdn_link_embeds_bucket_region_and_path() {
    assert_eq!(
        build_cdn_link("bkt", "fra1", Some("pics"), "cat.png"),
        "https://bkt.fra1.cdn.digitaloceanspaces.com/pics/cat.png"
    );
    assert_eq!(
        build_cdn_link("bkt", "fra1", None, "cat.png"),
        "https://bkt.fra1.cdn.digitaloceanspaces.com/cat.png"
    );
    assert_eq!(
        build_cdn_link("bkt", "fra1", Some(""), "cat.png"),
        "https://bkt.fra1.cdn.digitaloceanspaces.com/cat.png"
    );
}

#[test]
fn content_disposition_names_the_attachment() {
    assert_eq!(
        content_disposition("cat.png", &FileTypes::Png),
        "attachment; filename=\"cat.png.png\""
    );
}

#[test]
fn providers_and_environments_parse_exactly() {
    assert_eq!(S3Providers::from_str("AWS"), Some(S3Providers::AWS));
    assert_eq!(S3Providers::from_str("DigitalOcean"), Some(S3Providers::DigitalOcean));
    assert_eq!(S3Providers::from_str("aws"), None);
    assert_eq!(Environment::from_str("production"), Some(Environment::Production));
    assert_eq!(Environment::from_str("Production"), None);
}

#[test]
fn error_categories_have_fixed_messages() {
    assert_eq!(
        AppError::ErrorWithRequest.message(),
        "There was an error with your request."
    );
    assert_eq!(AppError::Unauthorized.message(), "Unauthorized.");
    assert_eq!(
        AppError::Forbidden.message(),
        "You are not permitted to perform this action."
    );
    assert_eq!(
        AppError::RegistrationError.message(),
        "There was an error registering your account."
    );
}

#[test]
fn password_policy_demands_all_four_classes_and_length() {
    assert!(RegisterUser::validate_password("Aa1!aaaaaaaa"));
    assert!(!RegisterUser::validate_password("Aa1!aaaa")); // too short
    assert!(!RegisterUser::validate_password("AA1!AAAAAAAA")); // no lowercase
    assert!(!RegisterUser::validate_password("aa1!aaaaaaaa")); // no uppercase
    assert!(!RegisterUser::validate_password("Aaa!aaaaaaaa")); // no digit
    assert!(!RegisterUser::validate_password("Aa1aaaaaaaaa")); // no special
    assert!(!RegisterUser::validate_password("Aa1!aaaaaaa\na")); // newline
}
