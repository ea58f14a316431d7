use vstd::prelude::*;
use crate::text::{chars_eq, chars_of, string_from};

verus! {

/// Messages of the package manager in one language.
pub struct I18n {
    pub lang: String,
    /// Key and text of each message, in the order they were stored.
    pub messages: Vec<(String, String)>,
}

pub type Catalog = Seq<(Seq<char>, Seq<char>)>;

/// The five messages of a catalog, in the order they are stored.
pub open spec fn five(welcome: Seq<char>, installing: Seq<char>, installed: Seq<char>, removing: Seq<char>, error: Seq<char>) -> Catalog {
    seq![
        ("pag.welcome"@, welcome),
        ("pag.installing"@, installing),
        ("pag.installed"@, installed),
        ("pag.removing"@, removing),
        ("pag.error"@, error),
    ]
}

/// The English messages.
pub open spec fn english() -> Catalog {
    five("PaganLinux Package Manager v0.1.0"@, "Installing {pkg}..."@, "Successfully installed {pkg}"@, "Removing {pkg}..."@, "Error: {msg}"@)
}

/// The Polish messages.
pub open spec fn polish() -> Catalog {
    five("PaganLinux Package Manager v0.1.0"@, "Instalowanie {pkg}..."@, "Pomyślnie zainstalowano {pkg}"@, "Usuwanie {pkg}..."@, "Błąd: {msg}"@)
}

/// The German messages.
pub open spec fn german() -> Catalog {
    five("PaganLinux Paketmanager v0.1.0"@, "Installiere {pkg}..."@, "{pkg} erfolgreich installiert"@, "Entferne {pkg}..."@, "Fehler: {msg}"@)
}

/// The French messages.
pub open spec fn french() -> Catalog {
    five("Gestionnaire de paquets PaganLinux v0.1.0"@, "Installation de {pkg}..."@, "{pkg} installé avec succès"@, "Suppression de {pkg}..."@, "Erreur : {msg}"@)
}

/// The Spanish messages.
pub open spec fn spanish() -> Catalog {
    five("Gestor de paquetes PaganLinux v0.1.0"@, "Instalando {pkg}..."@, "{pkg} instalado correctamente"@, "Eliminando {pkg}..."@, "Error: {msg}"@)
}

/// The Italian messages.
pub open spec fn italian() -> Catalog {
    five("Gestore pacchetti PaganLinux v0.1.0"@, "Installazione di {pkg}..."@, "{pkg} installato con successo"@, "Rimozione di {pkg}..."@, "Errore: {msg}"@)
}

/// The Russian messages.
pub open spec fn russian() -> Catalog {
    five("Менеджер пакетов PaganLinux v0.1.0"@, "Установка {pkg}..."@, "{pkg} успешно установлен"@, "Удаление {pkg}..."@, "Ошибка: {msg}"@)
}

/// The Czech messages.
pub open spec fn czech() -> Catalog {
    five("Správce balíčků PaganLinux v0.1.0"@, "Instalace {pkg}..."@, "{pkg} byl úspěšně nainstalován"@, "Odebírání {pkg}..."@, "Chyba: {msg}"@)
}

/// The Japanese messages.
pub open spec fn japanese() -> Catalog {
    five("PaganLinux パッケージマネージャー v0.1.0"@, "{pkg} をインストールしています..."@, "{pkg} のインストールが完了しました"@, "{pkg} を削除しています..."@, "エラー: {msg}"@)
}

/// The Chinese messages.
pub open spec fn chinese() -> Catalog {
    five("PaganLinux 软件包管理器 v0.1.0"@, "正在安装 {pkg}..."@, "已成功安装 {pkg}"@, "正在删除 {pkg}..."@, "错误：{msg}"@)
}

/// The catalog for a language code; codes of no supported language get English.
pub open spec fn catalog_for(lang: Seq<char>) -> Catalog {
    if lang == "pl"@ {
        polish()
    }     else if lang == "de"@ {
        german()
    }     else if lang == "fr"@ {
        french()
    }     else if lang == "es"@ {
        spanish()
    }     else if lang == "it"@ {
        italian()
    }     else if lang == "ru"@ {
        russian()
    }     else if lang == "cs"@ {
        czech()
    }     else if lang == "ja"@ {
        japanese()
    }     else if lang == "zh"@ {
        chinese()
    } else {
        english()
    }
}

/// The message stored under `key` (the last entry wins, as with map inserts).
pub open spec fn message(c: Catalog, key: Seq<char>) -> Option<Seq<char>>
    decreases c.len(),
{
    if c.len() == 0 {
        None
    } else if c.last().0 == key {
        Some(c.last().1)
    } else {
        message(c.drop_last(), key)
    }
}

fn entry(k: &str, v: &str) -> (r: (String, String))
    ensures
        r.0@ == k@,
        r.1@ == v@,
{
    (string_from(&chars_of(k)), string_from(&chars_of(v)))
}

pub open spec fn catalog_view(v: Seq<(String, String)>) -> Catalog {
    v.map_values(|e: (String, String)| (e.0@, e.1@))
}

fn make_catalog(welcome: &str, installing: &str, installed: &str, removing: &str, error: &str) -> (r: Vec<(String, String)>)
    ensures
        catalog_view(r@) == five(welcome@, installing@, installed@, removing@, error@),
{
    let r = vec![
        entry("pag.welcome", welcome),
        entry("pag.installing", installing),
        entry("pag.installed", installed),
        entry("pag.removing", removing),
        entry("pag.error", error),
    ];
    assert(catalog_view(r@) =~= five(welcome@, installing@, installed@, removing@, error@));
    r
}

fn en_messages() -> (r: Vec<(String, String)>)
    ensures
        catalog_view(r@) == english(),
{
    make_catalog("PaganLinux Package Manager v0.1.0", "Installing {pkg}...", "Successfully installed {pkg}", "Removing {pkg}...", "Error: {msg}")
}

fn pl_messages() -> (r: Vec<(String, String)>)
    ensures
        catalog_view(r@) == polish(),
{
    make_catalog("PaganLinux Package Manager v0.1.0", "Instalowanie {pkg}...", "Pomyślnie zainstalowano {pkg}", "Usuwanie {pkg}...", "Błąd: {msg}")
}

fn de_messages() -> (r: Vec<(String, String)>)
    ensures
        catalog_view(r@) == german(),
{
    make_catalog("PaganLinux Paketmanager v0.1.0", "Installiere {pkg}...", "{pkg} erfolgreich installiert", "Entferne {pkg}...", "Fehler: {msg}")
}

fn fr_messages() -> (r: Vec<(String, String)>)
    ensures
        catalog_view(r@) == french(),
{
    make_catalog("Gestionnaire de paquets PaganLinux v0.1.0", "Installation de {pkg}...", "{pkg} installé avec succès", "Suppression de {pkg}...", "Erreur : {msg}")
}

fn es_messages() -> (r: Vec<(String, String)>)
    ensures
        catalog_view(r@) == spanish(),
{
    make_catalog("Gestor de paquetes PaganLinux v0.1.0", "Instalando {pkg}...", "{pkg} instalado correctamente", "Eliminando {pkg}...", "Error: {msg}")
}

fn it_messages() -> (r: Vec<(String, String)>)
    ensures
        catalog_view(r@) == italian(),
{
    make_catalog("Gestore pacchetti PaganLinux v0.1.0", "Installazione di {pkg}...", "{pkg} installato con successo", "Rimozione di {pkg}...", "Errore: {msg}")
}

fn ru_messages() -> (r: Vec<(String, String)>)
    ensures
        catalog_view(r@) == russian(),
{
    make_catalog("Менеджер пакетов PaganLinux v0.1.0", "Установка {pkg}...", "{pkg} успешно установлен", "Удаление {pkg}...", "Ошибка: {msg}")
}

fn cs_messages() -> (r: Vec<(String, String)>)
    ensures
        catalog_view(r@) == czech(),
{
    make_catalog("Správce balíčků PaganLinux v0.1.0", "Instalace {pkg}...", "{pkg} byl úspěšně nainstalován", "Odebírání {pkg}...", "Chyba: {msg}")
}

fn ja_messages() -> (r: Vec<(String, String)>)
    ensures
        catalog_view(r@) == japanese(),
{
    make_catalog("PaganLinux パッケージマネージャー v0.1.0", "{pkg} をインストールしています...", "{pkg} のインストールが完了しました", "{pkg} を削除しています...", "エラー: {msg}")
}

fn zh_messages() -> (r: Vec<(String, String)>)
    ensures
        catalog_view(r@) == chinese(),
{
    make_catalog("PaganLinux 软件包管理器 v0.1.0", "正在安装 {pkg}...", "已成功安装 {pkg}", "正在删除 {pkg}...", "错误：{msg}")
}

fn is_lang(lang: &str, code: &str) -> (r: bool)
    ensures
        r == (lang@ == code@),
{
    chars_eq(&chars_of(lang), &chars_of(code))
}

impl I18n {
    /// The language code.
    pub open spec fn language(&self) -> Seq<char> {
        self.lang@
    }

    /// The messages of this language.
    pub open spec fn catalog(&self) -> Catalog {
        catalog_view(self.messages@)
    }

    /// The messages for a language code.
    pub fn new(lang: &str) -> (r: Self)
        ensures
            r.language() == lang@,
            r.catalog() == catalog_for(lang@),
    {
        let messages = if is_lang(lang, "pl") {
            pl_messages()
        } else if is_lang(lang, "de") {
            de_messages()
        } else if is_lang(lang, "fr") {
            fr_messages()
        } else if is_lang(lang, "es") {
            es_messages()
        } else if is_lang(lang, "it") {
            it_messages()
        } else if is_lang(lang, "ru") {
            ru_messages()
        } else if is_lang(lang, "cs") {
            cs_messages()
        } else if is_lang(lang, "ja") {
            ja_messages()
        } else if is_lang(lang, "zh") {
            zh_messages()
        } else {
            en_messages()
        };
        I18n { lang: string_from(&chars_of(lang)), messages }
    }

    /// The message stored under `key`, if any.
    pub fn get(&self, key: &str) -> (r: Option<&str>)
        ensures
            match r {
                Some(m) => message(self.catalog(), key@) == Some(m@),
                None => message(self.catalog(), key@) is None,
            },
    {
        let mut i = self.messages.len();
        let ghost c = self.catalog();
        assert(c.take(i as int) =~= c);
        while i > 0
            invariant
                i <= self.messages@.len(),
                c == self.catalog(),
                c == catalog_view(self.messages@),
                message(c, key@) == message(c.take(i as int), key@),
            decreases i,
        {
            assert(c.take(i as int).drop_last() =~= c.take(i - 1));
            assert(c.take(i as int).last() == (self.messages@[i - 1].0@, self.messages@[i - 1].1@));
            if is_lang(self.messages[i - 1].0.as_str(), key) {
                return Some(self.messages[i - 1].1.as_str());
            }
            i = i - 1;
        }
        None
    }
}

/// The messages for a language code.
pub fn init(lang: &str) -> (r: I18n)
    ensures
        r.language() == lang@,
        r.catalog() == catalog_for(lang@),
{
    I18n::new(lang)
}

} // verus!
