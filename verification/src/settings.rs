//! Endpoint settings and the palette of element types.
use vstd::prelude::*;
use vstd::string::*;
use crate::text::same_text;

verus! {

/// Where the OpenAI-compatible endpoint lives and how to reach it.
pub struct Endpoint {
    pub base_url: String,
    pub model: String,
    pub api_key: String,
}

/// A user-defined element type that nodes of the project map are classified into.
pub struct ElementType {
    pub kind: String,
    pub label: String,
    pub color: String,
    pub icon: String,
    pub description: String,
}

impl Clone for ElementType {
    fn clone(&self) -> (r: Self)
        ensures
            r == *self,
    {
        ElementType {
            kind: self.kind.clone(),
            label: self.label.clone(),
            color: self.color.clone(),
            icon: self.icon.clone(),
            description: self.description.clone(),
        }
    }
}

/// All persisted settings.
pub struct Settings {
    pub endpoint: Endpoint,
    pub palette: Vec<ElementType>,
}

/// An element type as its five texts: kind, label, color, icon, description.
pub open spec fn element_texts(e: ElementType) -> (Seq<char>, Seq<char>, Seq<char>, Seq<char>, Seq<char>) {
    (e.kind@, e.label@, e.color@, e.icon@, e.description@)
}

/// The palette a fresh installation starts with.
pub open spec fn default_palette_texts() -> Seq<(Seq<char>, Seq<char>, Seq<char>, Seq<char>, Seq<char>)> {
    seq![
        ("service"@, "Сервис"@, "#3b82f6"@, "Settings2"@, "Самостоятельный сервис или приложение"@),
        ("database"@, "База данных"@, "#10b981"@, "Database"@, "Хранилище данных, слой доступа к БД"@),
        ("module"@, "Модуль"@, "#a78bfa"@, "Box"@, "Внутренний модуль или пакет"@),
        ("library"@, "Библиотека"@, "#f59e0b"@, "Library"@, "Переиспользуемая библиотека"@),
        ("entrypoint"@, "Точка входа"@, "#ef4444"@, "Rocket"@, "main / CLI / server entrypoint"@),
    ]
}

fn element(kind: &str, label: &str, color: &str, icon: &str, description: &str) -> (e: ElementType)
    ensures
        element_texts(e) == (kind@, label@, color@, icon@, description@),
{
    ElementType {
        kind: kind.to_owned(),
        label: label.to_owned(),
        color: color.to_owned(),
        icon: icon.to_owned(),
        description: description.to_owned(),
    }
}

/// The five element types of a fresh installation.
pub fn default_palette() -> (p: Vec<ElementType>)
    ensures
        p@.map_values(|e: ElementType| element_texts(e)) == default_palette_texts(),
{
    let mut p = Vec::new();
    p.push(element("service", "Сервис", "#3b82f6", "Settings2", "Самостоятельный сервис или приложение"));
    p.push(element("database", "База данных", "#10b981", "Database", "Хранилище данных, слой доступа к БД"));
    p.push(element("module", "Модуль", "#a78bfa", "Box", "Внутренний модуль или пакет"));
    p.push(element("library", "Библиотека", "#f59e0b", "Library", "Переиспользуемая библиотека"));
    p.push(element("entrypoint", "Точка входа", "#ef4444", "Rocket", "main / CLI / server entrypoint"));
    assert(p@.map_values(|e: ElementType| element_texts(e)) =~= default_palette_texts());
    p
}


/// The icon name that replaces an emoji icon of older settings files.
pub open spec fn migrated_icon(icon: Seq<char>) -> Option<Seq<char>> {
    if icon == "⚙️"@ {
        Some("Settings2"@)
    } else if icon == "🗄️"@ {
        Some("Database"@)
    } else if icon == "📦"@ {
        Some("Box"@)
    } else if icon == "📚"@ {
        Some("Library"@)
    } else if icon == "🚀"@ {
        Some("Rocket"@)
    } else {
        None
    }
}

/// The icon name for an emoji icon of older settings files, if it is one.
pub fn migrate_icon(icon: &str) -> (r: Option<String>)
    ensures
        crate::text::opt_view(r) == migrated_icon(icon@),
{
    if same_text(icon, "⚙️") {
        Some(String::from_str("Settings2"))
    } else if same_text(icon, "🗄️") {
        Some(String::from_str("Database"))
    } else if same_text(icon, "📦") {
        Some(String::from_str("Box"))
    } else if same_text(icon, "📚") {
        Some(String::from_str("Library"))
    } else if same_text(icon, "🚀") {
        Some(String::from_str("Rocket"))
    } else {
        None
    }
}

/// `new` is `old` with every emoji icon replaced by its icon name.
pub open spec fn migrated_palette(old: Seq<ElementType>, new: Seq<ElementType>) -> bool {
    &&& new.len() == old.len()
    &&& forall|i: int| 0 <= i < old.len() ==> {
        let (o, n) = (#[trigger] old[i], new[i]);
        &&& n.kind == o.kind
        &&& n.label == o.label
        &&& n.color == o.color
        &&& n.description == o.description
        &&& n.icon@ == match migrated_icon(o.icon@) {
            Some(m) => m,
            None => o.icon@,
        }
    }
}

/// Some element type still has an emoji icon.
pub open spec fn needs_migration(palette: Seq<ElementType>) -> bool {
    exists|i: int| 0 <= i < palette.len() && (#[trigger] migrated_icon(palette[i].icon@)) is Some
}

/// Replaces emoji icons of older settings by icon names; tells whether any changed.
pub fn migrate_palette(palette: &mut Vec<ElementType>) -> (changed: bool)
    ensures
        migrated_palette(old(palette)@, final(palette)@),
        changed == needs_migration(old(palette)@),
{
    let ghost orig = palette@;
    let mut changed = false;
    let mut i: usize = 0;
    while i < palette.len()
        invariant
            0 <= i <= palette@.len(),
            palette@.len() == orig.len(),
            forall|j: int| i <= j < orig.len() ==> #[trigger] palette@[j] == orig[j],
            migrated_palette(orig.take(i as int), palette@.take(i as int)),
            changed == exists|j: int| 0 <= j < i && (#[trigger] migrated_icon(orig[j].icon@)) is Some,
        decreases palette@.len() - i,
    {
        if let Some(icon) = migrate_icon(palette[i].icon.as_str()) {
            let mut item = palette.remove(i);
            item.icon = icon;
            palette.insert(i, item);
            changed = true;
        }
        i = i + 1;
        assert(migrated_palette(orig.take(i as int), palette@.take(i as int))) by {
            assert forall|j: int| 0 <= j < i implies palette@.take(i as int)[j] == palette@[j] && orig.take(i as int)[j] == orig[j] by {}
        }
    }
    assert(orig.take(orig.len() as int) == orig);
    assert(palette@.take(palette@.len() as int) == palette@);
    changed
}

proof fn lemma_icon_names_settled()
    ensures
        migrated_icon("Settings2"@) is None,
        migrated_icon("Database"@) is None,
        migrated_icon("Box"@) is None,
        migrated_icon("Library"@) is None,
        migrated_icon("Rocket"@) is None,
{
    reveal_strlit("Settings2");
    reveal_strlit("Database");
    reveal_strlit("Box");
    reveal_strlit("Library");
    reveal_strlit("Rocket");
    reveal_strlit("⚙️");
    reveal_strlit("🗄️");
    reveal_strlit("📦");
    reveal_strlit("📚");
    reveal_strlit("🚀");
    let names = seq!["Settings2"@, "Database"@, "Box"@, "Library"@, "Rocket"@];
    let emoji = seq!["⚙️"@, "🗄️"@, "📦"@, "📚"@, "🚀"@];
    assert forall|a: int, b: int| 0 <= a < 5 && 0 <= b < 5 implies names[a] != emoji[b] by {
        assert(names[a][0] != emoji[b][0]);
    }
}

/// Migration settles at once: after one migration no element type has an
/// icon left to migrate, so migrating again changes nothing.
pub proof fn law_migration_settles(old: Seq<ElementType>, new: Seq<ElementType>, again: Seq<ElementType>)
    requires
        migrated_palette(old, new),
        migrated_palette(new, again),
    ensures
        !needs_migration(new),
        again.len() == new.len(),
        forall|i: int| 0 <= i < new.len() ==> element_texts(#[trigger] again[i]) == element_texts(new[i]),
{
    lemma_icon_names_settled();
    assert forall|i: int| 0 <= i < new.len() implies (#[trigger] migrated_icon(new[i].icon@)) is None by {
        let o = old[i];
        assert(new[i].icon@ == match migrated_icon(o.icon@) {
            Some(m) => m,
            None => o.icon@,
        });
        if o.icon@ == "⚙️"@ {
            assert(new[i].icon@ == "Settings2"@);
        } else if o.icon@ == "🗄️"@ {
            assert(new[i].icon@ == "Database"@);
        } else if o.icon@ == "📦"@ {
            assert(new[i].icon@ == "Box"@);
        } else if o.icon@ == "📚"@ {
            assert(new[i].icon@ == "Library"@);
        } else if o.icon@ == "🚀"@ {
            assert(new[i].icon@ == "Rocket"@);
        } else {
            assert(new[i].icon@ == o.icon@);
        }
    }
    assert forall|i: int| 0 <= i < new.len() implies element_texts(#[trigger] again[i]) == element_texts(new[i]) by {
        assert(migrated_icon(new[i].icon@) is None);
    }
}

/// The endpoint settings from environment values: the base URL defaults to a
/// local server, the model and key to nothing.
pub fn endpoint_from(base_url: Option<String>, model: Option<String>, api_key: Option<String>) -> (e: Endpoint)
    ensures
        e.base_url@ == match base_url {
            Some(u) => u@,
            None => "http://localhost:8080/v1"@,
        },
        e.model@ == match model {
            Some(m) => m@,
            None => Seq::<char>::empty(),
        },
        e.api_key@ == match api_key {
            Some(k) => k@,
            None => Seq::<char>::empty(),
        },
{
    Endpoint {
        base_url: match base_url {
            Some(u) => u,
            None => String::from_str("http://localhost:8080/v1"),
        },
        model: match model {
            Some(m) => m,
            None => String::new(),
        },
        api_key: match api_key {
            Some(k) => k,
            None => String::new(),
        },
    }
}

/// Settings with this endpoint and the default palette.
pub fn settings_with(endpoint: Endpoint) -> (s: Settings)
    ensures
        s.endpoint == endpoint,
        s.palette@.map_values(|e: ElementType| element_texts(e)) == default_palette_texts(),
{
    Settings { endpoint, palette: default_palette() }
}

} // verus!
