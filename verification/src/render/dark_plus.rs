//! The built-in `Dark+` code theme: VS Code's Dark+ token colors as a
//! TextMate theme, the dark theme's default code theme.
use vstd::prelude::*;

verus! {

/// The name the built-in theme goes by.
pub const DARK_PLUS_NAME: &'static str = "Dark+";

/// The built-in theme, in TextMate's `.tmTheme` format.
pub const DARK_PLUS: &'static str = r##"<?xml version="1.0" encoding="UTF-8"?>
<!DOCTYPE plist PUBLIC "-//Apple//DTD PLIST 1.0//EN" "http://www.apple.com/DTDs/PropertyList-1.0.dtd">
<plist version="1.0">
<dict>
  <key>name</key>
  <string>Dark+</string>
  <key>settings</key>
  <array>
    <dict>
      <key>settings</key>
      <dict>
        <key>background</key>
        <string>#1E1E1E</string>
        <key>foreground</key>
        <string>#D4D4D4</string>
        <key>caret</key>
        <string>#AEAFAD</string>
        <key>selection</key>
        <string>#264F78</string>
        <key>lineHighlight</key>
        <string>#2A2D2E</string>
      </dict>
    </dict>
    <dict>
      <key>name</key>
      <string>Comments</string>
      <key>scope</key>
      <string>comment, punctuation.definition.comment</string>
      <key>settings</key>
      <dict>
        <key>foreground</key>
        <string>#6A9955</string>
      </dict>
    </dict>
    <dict>
      <key>name</key>
      <string>Keywords and storage</string>
      <key>scope</key>
      <string>keyword, storage, storage.type, storage.modifier, constant.language, variable.language</string>
      <key>settings</key>
      <dict>
        <key>foreground</key>
        <string>#569CD6</string>
      </dict>
    </dict>
    <dict>
      <key>name</key>
      <string>Control flow</string>
      <key>scope</key>
      <string>keyword.control</string>
      <key>settings</key>
      <dict>
        <key>foreground</key>
        <string>#C586C0</string>
      </dict>
    </dict>
    <dict>
      <key>name</key>
      <string>Operators</string>
      <key>scope</key>
      <string>keyword.operator</string>
      <key>settings</key>
      <dict>
        <key>foreground</key>
        <string>#D4D4D4</string>
      </dict>
    </dict>
    <dict>
      <key>name</key>
      <string>Strings</string>
      <key>scope</key>
      <string>string, punctuation.definition.string</string>
      <key>settings</key>
      <dict>
        <key>foreground</key>
        <string>#CE9178</string>
      </dict>
    </dict>
    <dict>
      <key>name</key>
      <string>Escapes</string>
      <key>scope</key>
      <string>constant.character.escape</string>
      <key>settings</key>
      <dict>
        <key>foreground</key>
        <string>#D7BA7D</string>
      </dict>
    </dict>
    <dict>
      <key>name</key>
      <string>Numbers</string>
      <key>scope</key>
      <string>constant.numeric</string>
      <key>settings</key>
      <dict>
        <key>foreground</key>
        <string>#B5CEA8</string>
      </dict>
    </dict>
    <dict>
      <key>name</key>
      <string>Functions</string>
      <key>scope</key>
      <string>entity.name.function, support.function</string>
      <key>settings</key>
      <dict>
        <key>foreground</key>
        <string>#DCDCAA</string>
      </dict>
    </dict>
    <dict>
      <key>name</key>
      <string>Types</string>
      <key>scope</key>
      <string>entity.name.type, entity.name.class, entity.name.struct, entity.name.enum, support.type, support.class</string>
      <key>settings</key>
      <dict>
        <key>foreground</key>
        <string>#4EC9B0</string>
      </dict>
    </dict>
    <dict>
      <key>name</key>
      <string>Variables and parameters</string>
      <key>scope</key>
      <string>variable, variable.parameter, meta.definition.variable.name, support.type.property-name, entity.other.attribute-name</string>
      <key>settings</key>
      <dict>
        <key>foreground</key>
        <string>#9CDCFE</string>
      </dict>
    </dict>
    <dict>
      <key>name</key>
      <string>Tags</string>
      <key>scope</key>
      <string>entity.name.tag</string>
      <key>settings</key>
      <dict>
        <key>foreground</key>
        <string>#569CD6</string>
      </dict>
    </dict>
    <dict>
      <key>name</key>
      <string>Markup headings</string>
      <key>scope</key>
      <string>markup.heading</string>
      <key>settings</key>
      <dict>
        <key>foreground</key>
        <string>#569CD6</string>
        <key>fontStyle</key>
        <string>bold</string>
      </dict>
    </dict>
  </array>
</dict>
</plist>
"##;

} // verus!
