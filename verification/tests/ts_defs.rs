use aether::sources::Lang;
use aether::strmap::StrMap;
use aether::syntax::syntax_tree;
use aether::ts_defs::{collect_definitions, DefinitionKind};

#[test]
fn typescript_definitions_follow_their_scopes() {
    let source = "import { Base } from './base';\nexport class Widget extends Base implements Drawable {\n  size: number;\n  draw(): void { helper(); }\n  onClick = () => {};\n}\ninterface Shape { area: number; }\nfunction make(): Widget { return new Widget(); }\nconst build = () => 1;\ndescribe(\"suite\", () => { it(\"works\", () => {}); });\n";
    let root = syntax_tree(source, Lang::TypeScript).unwrap();
    let mut imports = StrMap::new();
    imports.insert("Base".to_string(), "base::Base".to_string());
    let defs = collect_definitions(&root, "src::app", &imports);
    let path_of = |name: &str| defs.definitions.iter().find(|d| d.name == name).map(|d| (d.kind, d.path.clone()));
    assert_eq!(path_of("Widget"), Some((DefinitionKind::Type, "src::app::Widget".to_string())));
    assert_eq!(path_of("size"), Some((DefinitionKind::Field, "src::app::Widget::size".to_string())));
    assert_eq!(path_of("draw"), Some((DefinitionKind::Function, "src::app::Widget::draw".to_string())));
    assert_eq!(path_of("onClick"), Some((DefinitionKind::Function, "src::app::Widget::onClick".to_string())));
    assert_eq!(path_of("area"), Some((DefinitionKind::Field, "src::app::Shape::area".to_string())));
    assert_eq!(path_of("make"), Some((DefinitionKind::Function, "src::app::make".to_string())));
    assert_eq!(path_of("build"), Some((DefinitionKind::Function, "src::app::build".to_string())));
    let works = defs.definitions.iter().find(|d| d.name == "works").unwrap();
    assert!(works.is_test);
    assert_eq!(works.path, "src::app::works");
    assert!(defs.definitions.iter().all(|d| d.name != "suite"));
    assert!(defs.inherits.iter().any(|i| i.sub == "src::app::Widget" && i.base == "base::Base"));
    assert!(defs.inherits.iter().any(|i| i.sub == "src::app::Widget" && i.base == "Drawable"));
    let make = defs.functions.iter().find(|f| f.path == "src::app::make").unwrap();
    assert!(make.start < make.end);
}

#[test]
fn ambient_declarations_and_decorators_define_nothing() {
    let root = syntax_tree("declare global { function hidden(): void; }\n", Lang::TypeScript).unwrap();
    let defs = collect_definitions(&root, "m", &StrMap::new());
    assert!(defs.definitions.is_empty());
}
