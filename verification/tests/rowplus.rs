use snakerobots::rowplus::{RowPlus, RowPlusColumns, RowPlusNested};

fn prefix(table: &str, root: bool) -> String {
    if root { String::new() } else { String::from(table) + "." }
}

struct UserRow;

impl RowPlus for UserRow {
    fn columns() -> RowPlusColumns {
        Self::columns_under("users", true)
    }
    fn columns_under(table: &str, root: bool) -> RowPlusColumns {
        let p = prefix(table, root);
        let mut cols = RowPlusColumns::new();
        cols.add(table, "id", &(p.clone() + "id"));
        cols.add(table, "username", &(p.clone() + "username"));
        cols
    }
}

struct ExtraUserRow;

impl RowPlus for ExtraUserRow {
    fn columns() -> RowPlusColumns {
        Self::columns_under("extra_users", true)
    }
    fn columns_under(table: &str, root: bool) -> RowPlusColumns {
        let p = prefix(table, root);
        let mut cols = RowPlusColumns::new();
        cols.flat::<UserRow>(table, root);
        cols.add(table, "bio", &(p.clone() + "bio"));
        cols
    }
}

struct PostRow;

impl RowPlus for PostRow {
    fn columns() -> RowPlusColumns {
        Self::columns_under("posts", true)
    }
    fn columns_under(table: &str, root: bool) -> RowPlusColumns {
        let p = prefix(table, root);
        let mut cols = RowPlusColumns::new();
        cols.add(table, "id", &(p.clone() + "id"));
        cols.nest::<UserRow>(&(p.clone() + "user"));
        cols
    }
}

struct OptionalPostRow;

impl RowPlus for OptionalPostRow {
    fn columns() -> RowPlusColumns {
        Self::columns_under("posts", true)
    }
    fn columns_under(table: &str, root: bool) -> RowPlusColumns {
        let p = prefix(table, root);
        let mut cols = RowPlusColumns::new();
        cols.add(table, "id", &(p.clone() + "id"));
        cols.nest::<Option<UserRow>>(&(p.clone() + "user"));
        cols
    }
}

struct ExtraPostRow;

impl RowPlus for ExtraPostRow {
    fn columns() -> RowPlusColumns {
        Self::columns_under("extra_posts", true)
    }
    fn columns_under(table: &str, root: bool) -> RowPlusColumns {
        let p = prefix(table, root);
        let mut cols = RowPlusColumns::new();
        cols.flat::<PostRow>(table, root);
        cols.add(table, "description", &(p.clone() + "description"));
        cols
    }
}

#[test]
fn simple() {
    assert_eq!(UserRow::columns().to_string(), "\"users\".\"id\" AS \"id\", \"users\".\"username\" AS \"username\"");
}

#[test]
fn flatten() {
    assert_eq!(ExtraUserRow::columns().to_string(), "\"extra_users\".\"id\" AS \"id\", \"extra_users\".\"username\" AS \"username\", \"extra_users\".\"bio\" AS \"bio\"");
}

#[test]
fn nested() {
    assert_eq!(PostRow::columns().to_string(), "\"posts\".\"id\" AS \"id\", \"user\".\"id\" AS \"user.id\", \"user\".\"username\" AS \"user.username\"");
}

#[test]
fn nested_optional() {
    assert_eq!(OptionalPostRow::columns().to_string(), "\"posts\".\"id\" AS \"id\", \"user\" IS NOT NULL AS \"user$Option\", \"user\".\"id\" AS \"user.id\", \"user\".\"username\" AS \"user.username\"");
}

#[test]
fn nested_inside_flatten() {
    assert_eq!(ExtraPostRow::columns().to_string(), "\"extra_posts\".\"id\" AS \"id\", \"user\".\"id\" AS \"user.id\", \"user\".\"username\" AS \"user.username\", \"extra_posts\".\"description\" AS \"description\"");
}

#[test]
fn raw_and_append() {
    let mut a = RowPlusColumns::new();
    a.add_raw("COUNT(*)", "total");
    let mut b = RowPlusColumns::new();
    b.add("t", "x", "y");
    a.append(b);
    assert_eq!(a.to_string(), "COUNT(*) AS \"total\", \"t\".\"x\" AS \"y\"");
    assert_eq!(RowPlusColumns::new().to_string(), "");
    assert_eq!(<Option<UserRow> as RowPlusNested>::columns_nested("u").0.len(), 3);
}

struct CommentRow;

impl RowPlus for CommentRow {
    fn columns() -> RowPlusColumns {
        Self::columns_under("comments", true)
    }
    fn columns_under(table: &str, root: bool) -> RowPlusColumns {
        let mut cols = RowPlusColumns::new();
        cols.add_field(table, root, "text");
        cols.nest_field::<Option<UserRow>>(table, root, "author");
        cols
    }
}

#[test]
fn field_rules() {
    assert_eq!(snakerobots::rowplus::alias_prefix("t", true), "");
    assert_eq!(snakerobots::rowplus::alias_prefix("t", false), "t.");
    assert_eq!(
        CommentRow::columns().to_string(),
        "\"comments\".\"text\" AS \"text\", \"author\" IS NOT NULL AS \"author$Option\", \"author\".\"id\" AS \"author.id\", \"author\".\"username\" AS \"author.username\""
    );
    assert_eq!(
        CommentRow::columns_under("c", false).to_string(),
        "\"c\".\"text\" AS \"c.text\", \"c.author\" IS NOT NULL AS \"c.author$Option\", \"c.author\".\"id\" AS \"c.author.id\", \"c.author\".\"username\" AS \"c.author.username\""
    );
}
