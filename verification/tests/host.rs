use udf_core::host::{
    approved_preview_handler, error_page, fit_to_width, guid_str, html_escape, inject_toolbar,
    is_open_editor_message, pane_bounds, preview_html, preview_url, registration_root, registration_values,
    all_registry_roots, RegistryRoot,
    replace_first_exec, unreadable_file_page, unregistration_keys, viewer_page, wide, window_title,
    Guid,
};

#[test]
fn fit_to_width_injects_before_first_body_close() {
    let out = fit_to_width("<html><body><p>x</p></body></html></body>");
    assert!(out.starts_with("<html><body><p>x</p><style>html{overflow-x:hidden;overflow-y:scroll}"));
    assert!(out.ends_with("fit();})();</script></body></html></body>"));
    assert_eq!(out.matches("<script>").count(), 1);
    assert_eq!(fit_to_width("no body here"), "no body here");
}

#[test]
fn toolbar_goes_after_body_with_escaped_name() {
    let out = inject_toolbar("<html><body><p>x</p></body></html>", "a<b>&c.udf");
    assert!(out.starts_with("<html><body><div style=\"position:fixed;"));
    assert!(out.contains(">a&lt;b&gt;&amp;c.udf</span></div><div style=\"height:48px;\"></div><p>x</p></body>"));
    assert!(out.contains("UYAP Editör'de Aç</button>"));
}

#[test]
fn error_page_escapes_message() {
    let page = error_page("Dosya okunamadı: <x>");
    assert!(page.starts_with("<!doctype html><html lang=\"tr\">"));
    assert!(page.contains("<h2>Görüntülenemedi</h2><pre style=\"white-space:pre-wrap;color:#a00;\">Dosya okunamadı: &lt;x&gt;</pre></body></html>"));
}

#[test]
fn html_escape_replaces_markup_characters() {
    assert_eq!(html_escape("Tom & Jerry <3 >_<"), "Tom &amp; Jerry &lt;3 &gt;_&lt;");
    assert_eq!(html_escape("&amp;"), "&amp;amp;");
}

#[test]
fn replace_first_only_touches_first_match() {
    assert_eq!(replace_first_exec("abcabc", "bc", "X"), "aXabc");
    assert_eq!(replace_first_exec("abc", "", "X"), "Xabc");
    assert_eq!(replace_first_exec("abc", "abcd", "X"), "abc");
    assert_eq!(replace_first_exec("aaa", "aa", "b"), "ba");
}

#[test]
fn wide_is_nul_terminated_utf16() {
    assert_eq!(wide("Aç"), vec![0x41, 0xE7, 0]);
    assert_eq!(wide("𝛼"), vec![0xD835, 0xDEFC, 0]);
    assert_eq!(wide(""), vec![0]);
}

#[test]
fn guid_in_registry_form() {
    let g = Guid {
        data1: 0x0a1b2c3d,
        data2: 0x4e5f,
        data3: 0x6070,
        data4: [0x81, 0x92, 0xa3, 0xb4, 0xc5, 0xd6, 0xe7, 0xf8],
    };
    assert_eq!(guid_str(&g), "{0A1B2C3D-4E5F-6070-8192-A3B4C5D6E7F8}");
    let z = Guid { data1: 0, data2: 0, data3: 0, data4: [0; 8] };
    assert_eq!(guid_str(&z), "{00000000-0000-0000-0000-000000000000}");
}

#[test]
fn pane_bounds_clamp_inverted_rectangles() {
    let b = pane_bounds(10, 20, 110, 70);
    assert_eq!((b.x, b.y, b.width, b.height), (10, 20, 100, 50));
    let b = pane_bounds(50, 50, 10, 60);
    assert_eq!((b.x, b.y, b.width, b.height), (50, 50, 0, 10));
}

#[test]
fn preview_and_viewer_pages() {
    assert!(preview_html(b"not a zip").is_err());
    assert_eq!(preview_url(42), "udf://localhost/?v=42");
    let page = viewer_page(b"not a zip", "x.udf");
    assert!(page.contains("<pre style=\"white-space:pre-wrap;color:#a00;\">Belge ayrıştırılamadı: invalid ZIP archive: "));
    let page = unreadable_file_page("C:\\a.udf", "denied");
    assert!(page.contains(">Dosya okunamadı: C:\\a.udf\ndenied</pre>"));
    assert_eq!(window_title("a.udf"), "a.udf — UDF Görüntüleyici");
    assert!(is_open_editor_message("open-editor"));
    assert!(!is_open_editor_message("open-editor "));
}

#[test]
fn registration_writes_both_handlers() {
    let v = registration_values("C:\\udf.dll", "{T}", "{P}", "{A}");
    let rows: Vec<(String, Option<String>, String)> =
        v.into_iter().map(|r| (r.path, r.name, r.data)).collect();
    let s = |x: &str| x.to_string();
    assert_eq!(
        rows,
        vec![
            (s("Software\\Classes\\CLSID\\{T}"), None, s("UDF Thumbnail Handler")),
            (s("Software\\Classes\\CLSID\\{T}\\InprocServer32"), None, s("C:\\udf.dll")),
            (s("Software\\Classes\\CLSID\\{T}\\InprocServer32"), Some(s("ThreadingModel")), s("Apartment")),
            (s("Software\\Classes\\.udf\\ShellEx\\{e357fccd-a995-4576-b01f-234630154e96}"), None, s("{T}")),
            (s("Software\\Classes\\CLSID\\{P}"), None, s("UDF Preview Handler")),
            (s("Software\\Classes\\CLSID\\{P}"), Some(s("AppID")), s("{A}")),
            (s("Software\\Classes\\CLSID\\{P}\\InprocServer32"), None, s("C:\\udf.dll")),
            (s("Software\\Classes\\CLSID\\{P}\\InprocServer32"), Some(s("ThreadingModel")), s("Apartment")),
            (s("Software\\Classes\\.udf\\ShellEx\\{8895b1c6-b41f-4c1c-a562-0d564250836f}"), None, s("{P}")),
        ]
    );
    let a = approved_preview_handler("{P}");
    assert_eq!(a.path, "Software\\Microsoft\\Windows\\CurrentVersion\\PreviewHandlers");
    assert_eq!(a.name.as_deref(), Some("{P}"));
    assert_eq!(a.data, "UDF Preview Handler");
    assert_eq!(
        unregistration_keys("{T}", "{P}"),
        vec![
            s("Software\\Classes\\CLSID\\{T}"),
            s("Software\\Classes\\.udf\\ShellEx\\{e357fccd-a995-4576-b01f-234630154e96}"),
            s("Software\\Classes\\CLSID\\{P}"),
            s("Software\\Classes\\.udf\\ShellEx\\{8895b1c6-b41f-4c1c-a562-0d564250836f}"),
        ]
    );
}

#[test]
fn registration_falls_back_to_the_current_user() {
    assert_eq!(registration_root(true), RegistryRoot::LocalMachine);
    assert_eq!(registration_root(false), RegistryRoot::CurrentUser);
    assert_eq!(all_registry_roots(), vec![RegistryRoot::LocalMachine, RegistryRoot::CurrentUser]);
}
