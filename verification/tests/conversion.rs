use scope_permissions::scope::Scope;

fn validate_scope(left: &Scope, right: &Scope) -> bool {
    if !left.name.eq(right.name.as_str()) {
        println!(
            "scope name encoded to tuple ('{}') does not equal expected value ('{}')",
            left.name,
            right.name.as_str()
        );
        return false;
    }
    if left.as_u64() != right.as_u64() {
        println!(
            "permission number encoded to tuple ({}) does not equal expected value ({})",
            left.as_u64(),
            right.as_u64()
        );
        return false;
    }
    if left.permissions.len() != right.permissions.len() {
        println!(
            "permissions length encoded to tuple ({}) does not equal expected value ({})",
            left.permissions.len(),
            right.permissions.len()
        );
        return false;
    }
    if left.scopes.len() != right.scopes.len() {
        println!(
            "scopes length encoded to tuple ({}) does not equal expected value ({})",
            left.scopes.len(),
            right.scopes.len()
        );
        return false;
    }

    let mut i = 0;
    for permission in left.permissions.iter() {
        if let Some(expected_permission) =
            right.permissions.iter().find(|p| p.name == permission.name)
        {
            if !permission.name.as_str().eq(expected_permission.name.as_str()) {
                println!(
                    "name of permission at index {} ('{}') does not match expected value ('{}')",
                    i, permission.name, expected_permission.name
                );
                return false;
            }
        } else {
            println!("permission at index {} ('{}') was not found in scope", i, permission.name);
            return false;
        }

        i = i + 1;
    }

    return true;
}

#[test]
fn conversion_test_export_tuple_with_permissions_no_child_scopes() {
    let mut scope = Scope::new("USER");

    if let Ok(_) = scope
        .add_permission("CREATE")
        .and_then(|sc| sc.add_permission("READ"))
        .and_then(|sc| sc.add_permission("UPDATE"))
        .and_then(|sc| sc.add_permission("DELETE"))
        .and_then(|sc| sc.add_permission("EXECUTE"))
    {
        assert_eq!(scope.permissions.len(), 5usize);

        // grant some of the permissions but not all of them
        for perm in vec!["CREATE", "READ", "EXECUTE"] {
            scope.permission(perm).and_then(|p| {
                return if let Ok(granted) = p.grant() {
                    Some(granted)
                } else {
                    None
                };
            });
        }

        assert!(validate_scope(&Scope::from(scope.as_tuple()), &scope));
    } else {
        assert!(false);
    }
}

#[test]
fn conversion_test_export_tuple_with_child_scopes_no_permissions() {
    let mut scope = Scope::new("USER");

    // add a child scope
    if let Ok(_) = scope.add_scope("CHILD_SCOPE") {
        assert_eq!(scope.scope("CHILD_SCOPE").is_some(), true);
    } else {
        assert!(false);
    }

    assert!(validate_scope(&Scope::from(scope.as_tuple()), &scope));
}

#[test]
fn conversion_test_export_tuple_with_child_scopes_and_root_permissions_no_child_permissions() {
    let mut scope = Scope::new("USER");

    // add a child scope
    if let Ok(_) = scope.add_scope("CHILD_SCOPE") {
        assert_eq!(scope.scope("CHILD_SCOPE").is_some(), true);
    } else {
        assert!(false);
    }

    // add permissions to containing scope
    if let Ok(_) = scope
        .add_permission("CREATE")
        .and_then(|sc| sc.add_permission("READ"))
        .and_then(|sc| sc.add_permission("UPDATE"))
        .and_then(|sc| sc.add_permission("DELETE"))
        .and_then(|sc| sc.add_permission("EXECUTE"))
    {
        assert_eq!(scope.permissions.len(), 5usize);

        // grant some of the permissions but not all of them
        for perm in vec!["CREATE", "READ", "EXECUTE"] {
            scope.permission(perm).and_then(|p| {
                return if let Ok(granted) = p.grant() {
                    Some(granted)
                } else {
                    None
                };
            });
        }
    } else {
        assert!(false);
    }

    assert!(validate_scope(&Scope::from(scope.as_tuple()), &scope));
}

#[test]
fn conversion_test_export_tuple_with_child_scopes_and_root_permissions_and_child_permissions() {
    let mut scope = Scope::new("USER");

    // add a child scope
    if let Ok(_) = scope.add_scope("CHILD_SCOPE") {
        assert_eq!(scope.scope("CHILD_SCOPE").is_some(), true);
    } else {
        assert!(false);
    }

    if let Some(child_scope) = scope.scope("CHILD_SCOPE") {
        if let Ok(_) = child_scope.add_permission("CREATE") {
            assert_eq!(child_scope.permissions.len(), 1usize);
        }
    } else {
        assert!(false);
    }

    // add permissions to containing scope
    if let Ok(_) = scope
        .add_permission("CREATE")
        .and_then(|sc| sc.add_permission("READ"))
        .and_then(|sc| sc.add_permission("UPDATE"))
        .and_then(|sc| sc.add_permission("DELETE"))
        .and_then(|sc| sc.add_permission("EXECUTE"))
    {
        assert_eq!(scope.permissions.len(), 5usize);

        // grant some of the permissions but not all of them
        for perm in vec!["CREATE", "READ", "EXECUTE"] {
            scope.permission(perm).and_then(|p| {
                return if let Ok(granted) = p.grant() {
                    Some(granted)
                } else {
                    None
                };
            });
        }
    } else {
        assert!(false);
    }

    assert!(validate_scope(&Scope::from(scope.as_tuple()), &scope));
}
